//! The `@primary` directive of the declarative model: it marks a field as
//! the identifier of its model and says how identifiers are made.

use crate::text::str_eq;
use vstd::prelude::*;
use vstd::string::*;

verus! {

/// How the identifiers of a model are made.
#[derive(Clone, Copy, Debug, PartialEq, Eq, Structural)]
pub enum IdStrategy {
    Auto,
    NoStrategy,
}

/// What a field that identifies its model carries. The directive names no
/// sequence.
#[derive(Clone, Copy, Debug, PartialEq, Eq, Structural)]
pub struct IdInfo {
    pub strategy: IdStrategy,
    pub has_sequence: bool,
}

/// A field of a model, as far as the directive reads and writes it.
#[derive(Debug, PartialEq, Eq)]
pub struct Field {
    pub name: String,
    pub id_info: Option<IdInfo>,
}

/// One named argument of a directive, with its literal as written.
#[derive(Debug, PartialEq, Eq)]
pub struct Argument {
    pub name: String,
    pub value: String,
}

/// The names of the arguments of a list, in order.
pub open spec fn argument_names(arguments: Seq<Argument>) -> Seq<Seq<char>> {
    arguments.map_values(|a: Argument| a.name@)
}

/// The arguments that a directive was written with.
#[derive(Debug, PartialEq, Eq)]
pub struct Args {
    pub arguments: Vec<Argument>,
}

impl Args {
    /// The literal of the first argument of that name.
    pub open spec fn literal(&self, name: Seq<char>) -> Option<Seq<char>> {
        match argument_names(self.arguments@).index_of_first(name) {
            Some(i) => Some(self.arguments@[i].value@),
            None => None,
        }
    }

    /// The first argument of that name, if there is one.
    pub fn arg(&self, name: &str) -> (found: Option<&Argument>)
        ensures
            match found {
                Some(a) => self.literal(name@) == Some(a.value@),
                None => self.literal(name@) is None,
            },
    {
        let mut i: usize = 0;
        while i < self.arguments.len()
            invariant
                i <= self.arguments.len(),
                forall|j: int| 0 <= j < i ==> argument_names(self.arguments@)[j] != name@,
            decreases self.arguments.len() - i,
        {
            if str_eq(self.arguments[i].name.as_str(), name) {
                proof {
                    crate::text::lemma_first_occurrence(
                        argument_names(self.arguments@),
                        name@,
                        i as int,
                    );
                }
                return Some(&self.arguments[i]);
            }
            i = i + 1;
        }
        proof {
            crate::text::lemma_no_occurrence(argument_names(self.arguments@), name@);
        }
        None
    }
}

/// A directive was given a literal that it cannot read.
#[derive(Debug, PartialEq, Eq)]
pub struct DirectiveError {
    pub directive: String,
    pub literal: String,
}

/// The strategy that a literal names: `AUTO` or `NONE`.
pub open spec fn strategy_named(literal: Seq<char>) -> Option<IdStrategy> {
    if literal == "AUTO"@ {
        Some(IdStrategy::Auto)
    } else if literal == "NONE"@ {
        Some(IdStrategy::NoStrategy)
    } else {
        None
    }
}

/// Reads a strategy from its literal.
pub fn parse_strategy(literal: &str) -> (strategy: Option<IdStrategy>)
    ensures
        strategy == strategy_named(literal@),
{
    if str_eq(literal, "AUTO") {
        Some(IdStrategy::Auto)
    } else if str_eq(literal, "NONE") {
        Some(IdStrategy::NoStrategy)
    } else {
        None
    }
}

/// The built-in `@primary` directive.
#[derive(Debug, PartialEq, Eq)]
pub struct PrimaryDirectiveValidator {}

impl PrimaryDirectiveValidator {
    pub fn directive_name(&self) -> (name: &'static str)
        ensures
            name@ == "primary"@,
    {
        "primary"
    }

    /// Marks the field as identifier. The strategy is `Auto` unless the
    /// argument `name` gives another. A literal that names no strategy is an
    /// error, and leaves the field as it was.
    pub fn validate_and_apply(&self, args: &Args, obj: &mut Field) -> (outcome: Result<
        (),
        DirectiveError,
    >)
        ensures
            final(obj).name == old(obj).name,
            match args.literal("name"@) {
                None => outcome is Ok && final(obj).id_info == Some(
                    IdInfo { strategy: IdStrategy::Auto, has_sequence: false },
                ),
                Some(literal) => match strategy_named(literal) {
                    Some(strategy) => outcome is Ok && final(obj).id_info == Some(
                        IdInfo { strategy, has_sequence: false },
                    ),
                    None => outcome is Err && outcome->Err_0.directive@ == "primary"@
                        && outcome->Err_0.literal@ == literal && final(obj).id_info == old(
                        obj,
                    ).id_info,
                },
            },
    {
        let mut id_info = IdInfo { strategy: IdStrategy::Auto, has_sequence: false };

        if let Some(arg) = args.arg("name") {
            match parse_strategy(arg.value.as_str()) {
                Some(strategy) => id_info.strategy = strategy,
                None => {
                    return Err(
                        DirectiveError {
                            directive: String::from_str(self.directive_name()),
                            literal: arg.value.clone(),
                        },
                    );
                },
            }
        }
        obj.id_info = Some(id_info);

        Ok(())
    }
}

} // verus!
