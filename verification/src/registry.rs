//! The command registry: the commands of a bot, in the order in which they
//! were registered, fixed once it is built.

use crate::command::{Command, RegistrationError};
use crate::text::{spec_split_words, split_words};
use vstd::prelude::*;

verus! {

/// Whether every command of `commands` has a name of at least one word.
pub open spec fn all_named<H>(commands: Seq<Command<H>>) -> bool {
    forall|i: int| 0 <= i < commands.len() ==> spec_split_words(#[trigger] commands[i].name@).len() > 0
}

/// An ordered collection of commands, each with a name of at least one word.
pub struct Registry<H> {
    commands: Vec<Command<H>>,
}

impl<H> Registry<H> {
    /// The commands, in registration order.
    pub closed spec fn commands(&self) -> Seq<Command<H>> {
        self.commands@
    }

    /// For each command, in registration order, the texts that invoke it:
    /// its name, then its aliases.
    pub open spec fn names(&self) -> Seq<Seq<Seq<char>>> {
        self.commands().map_values(|c: Command<H>| c.names())
    }

    /// For each command, in registration order, the level that its callers
    /// need.
    pub open spec fn levels(&self) -> Seq<nat> {
        self.commands().map_values(|c: Command<H>| c.power_level_required as nat)
    }

    #[verifier::type_invariant]
    spec fn well_formed(&self) -> bool {
        all_named(self.commands@)
    }

    /// Builds the registry of `commands`, or refuses them if one has a name
    /// without a word.
    pub fn new(commands: Vec<Command<H>>) -> (r: Result<Self, RegistrationError>)
        ensures
            match r {
                Ok(registry) => all_named(commands@) && registry.commands() == commands@,
                Err(error) => !all_named(commands@) && error == RegistrationError::EmptyName,
            },
    {
        let mut i: usize = 0;
        while i < commands.len()
            invariant
                i <= commands.len(),
                all_named(commands@.take(i as int)),
            decreases commands.len() - i,
        {
            let words = split_words(commands[i].name.as_str());
            if words.len() == 0 {
                return Err(RegistrationError::EmptyName);
            }
            proof {
                let done = commands@.take(i + 1);
                assert forall|k: int| 0 <= k < done.len() implies spec_split_words(
                    #[trigger] done[k].name@,
                ).len() > 0 by {
                    if k < i {
                        assert(commands@.take(i as int)[k] == done[k]);
                    }
                }
            }
            i += 1;
        }
        assert(commands@.take(i as int) == commands@);
        Ok(Registry { commands })
    }

    /// The number of commands.
    pub fn len(&self) -> (n: usize)
        ensures
            n == self.commands().len(),
            all_named(self.commands()),
    {
        proof {
            use_type_invariant(self);
        }
        self.commands.len()
    }

    /// The commands, in registration order, to go through.
    pub fn as_slice(&self) -> (commands: &[Command<H>])
        ensures
            commands@ == self.commands(),
            all_named(commands@),
    {
        proof {
            use_type_invariant(self);
        }
        self.commands.as_slice()
    }

    /// The command registered at `index`, if there is one.
    pub fn get(&self, index: usize) -> (r: Option<&Command<H>>)
        ensures
            match r {
                Some(command) => index < self.commands().len() && *command == self.commands()[
                    index as int
                ],
                None => index >= self.commands().len(),
            },
            all_named(self.commands()),
    {
        proof {
            use_type_invariant(self);
        }
        if index < self.commands.len() {
            Some(&self.commands[index])
        } else {
            None
        }
    }
}

} // verus!
