//! Commands, their errors, and the registration of a command from its
//! declaration.

use crate::args::TryFromStr;
use crate::text::{spec_split_words, split_words, text_eq, texts};
use vstd::prelude::*;

verus! {

/// Why a command did not do its work.
#[derive(Debug, Clone, PartialEq, Eq)]
pub enum CommandError {
    /// Something unexpected failed. The detail is for the operator only.
    InternalError(String),
    /// The caller's arguments could not be read. The detail may be shown to
    /// the caller.
    ArgParseError(String),
}

/// A `CommandError` with its detail as characters.
pub enum CommandErrorView {
    InternalError(Seq<char>),
    ArgParseError(Seq<char>),
}

impl View for CommandError {
    type V = CommandErrorView;

    open spec fn view(&self) -> CommandErrorView {
        match self {
            CommandError::InternalError(detail) => CommandErrorView::InternalError(detail@),
            CommandError::ArgParseError(detail) => CommandErrorView::ArgParseError(detail@),
        }
    }
}

/// The detail of the error for a reply that the channel did not take:
/// `error` is the channel's reason, `serialized` the content written out.
pub open spec fn spec_delivery_detail(error: Seq<char>, serialized: Seq<char>) -> Seq<char> {
    "Error replying to a message: "@ + error + ". Message content: "@ + serialized
}

impl CommandError {
    /// The error for a reply whose content could not be written out, for
    /// the reason `error`.
    pub fn from_serialization(error: &str) -> (r: CommandError)
        ensures
            r@ == CommandErrorView::InternalError(error@),
    {
        CommandError::InternalError(error.to_owned())
    }

    /// The error for a reply that the channel did not take.
    pub fn from_delivery(error: &str, serialized: &str) -> (r: CommandError)
        ensures
            r@ == CommandErrorView::InternalError(spec_delivery_detail(error@, serialized@)),
    {
        let mut detail = String::from_str("Error replying to a message: ");
        detail.append(error);
        detail.append(". Message content: ");
        detail.append(serialized);
        CommandError::InternalError(detail)
    }
}

/// What the help text says of one argument.
#[derive(Debug, Clone, PartialEq, Eq)]
pub struct CommandArgHint {
    pub name: String,
    pub description: String,
}

/// A `CommandArgHint` with its texts as characters.
pub struct ArgHintView {
    pub name: Seq<char>,
    pub description: Seq<char>,
}

impl View for CommandArgHint {
    type V = ArgHintView;

    open spec fn view(&self) -> ArgHintView {
        ArgHintView { name: self.name@, description: self.description@ }
    }
}

/// The views of the hints of `v`, in order.
pub open spec fn hint_views(v: Seq<CommandArgHint>) -> Seq<ArgHintView> {
    v.map_values(|h: CommandArgHint| h@)
}

/// A named operation that callers of sufficient level may invoke. `H` is the
/// handler, which this library carries and never calls.
#[derive(Debug, Clone)]
pub struct Command<H> {
    pub name: String,
    pub aliases: Vec<String>,
    pub arg_hints: Vec<CommandArgHint>,
    pub power_level_required: usize,
    pub handler: H,
}

impl<H> Command<H> {
    /// The texts that invoke the command: its name, then its aliases.
    pub open spec fn names(&self) -> Seq<Seq<char>> {
        seq![self.name@] + texts(self.aliases@)
    }
}

/// Reads one argument of type `T` from the front of `input`, as a handler
/// does for each of its arguments in turn: what comes back is what the
/// parser of `T` gives, but that its failure has become an `ArgParseError`
/// with the same detail.
pub fn parse_arg<T: TryFromStr>(input: &str) -> (r: Result<(T, &str), CommandError>)
    ensures
        match r {
            Ok((value, rest)) => {
                &&& call_ensures(T::try_from_str, (input,), Ok((value, rest)))
                &&& rest@.is_suffix_of(input@)
            },
            Err(CommandError::ArgParseError(detail)) => call_ensures(
                T::try_from_str,
                (input,),
                Err(detail),
            ),
            Err(CommandError::InternalError(_)) => false,
        },
{
    match T::try_from_str(input) {
        Ok(parsed) => Ok(parsed),
        Err(detail) => Err(CommandError::ArgParseError(detail)),
    }
}

/// Why a command, or a list of commands, was not registered.
#[derive(Debug, Clone, Copy, PartialEq, Eq)]
pub enum RegistrationError {
    /// The handler is not asynchronous.
    NotAsync,
    /// The parameter at `position` is required and follows an optional one.
    RequiredAfterOptional { position: usize },
    /// A command's name holds no word.
    EmptyName,
}

/// One declared parameter of a handler, behind the calling context.
#[derive(Debug, Clone, PartialEq, Eq)]
pub struct Parameter {
    /// The parameter's name, where it is bound to a plain name.
    pub ident: Option<String>,
    /// The first path segment of the parameter's type, where the type is a
    /// path.
    pub type_head: Option<String>,
    /// The name that the help text is to show in place of `ident`.
    pub hint_name: Option<String>,
    /// What the help text says of the parameter.
    pub description: String,
}

impl Parameter {
    /// Whether the parameter may be left out: its type is an `Option`.
    pub open spec fn spec_is_optional(&self) -> bool {
        self.type_head matches Some(head) && head@ == "Option"@
    }

    /// Tells whether the parameter may be left out.
    #[verifier::when_used_as_spec(spec_is_optional)]
    pub fn is_optional(&self) -> (optional: bool)
        ensures
            optional == self.spec_is_optional(),
    {
        match &self.type_head {
            Some(head) => text_eq(head.as_str(), "Option"),
            None => false,
        }
    }

    /// The hint for the parameter, if it has a name: under `hint_name` where
    /// that is given, else under the parameter's own name.
    pub open spec fn spec_hint(&self) -> Option<ArgHintView> {
        match self.ident {
            Some(ident) => Some(
                ArgHintView {
                    name: match self.hint_name {
                        Some(name) => name@,
                        None => ident@,
                    },
                    description: self.description@,
                },
            ),
            None => None,
        }
    }

    /// Makes the hint for the parameter, if it has a name.
    pub fn hint(&self) -> (r: Option<CommandArgHint>)
        ensures
            match r {
                Some(hint) => self.spec_hint() == Some(hint@),
                None => self.spec_hint() is None,
            },
    {
        match &self.ident {
            Some(ident) => {
                let name = match &self.hint_name {
                    Some(name) => name.clone(),
                    None => ident.clone(),
                };
                Some(CommandArgHint { name, description: self.description.clone() })
            },
            None => None,
        }
    }
}

/// What a handler's declaration says of the command that it is to become.
#[derive(Debug, Clone, PartialEq, Eq)]
pub struct Declaration {
    /// The handler's own name.
    pub ident: String,
    /// Whether the handler is asynchronous.
    pub is_async: bool,
    /// The command's name, where it is not the handler's.
    pub name: Option<String>,
    /// Other texts that invoke the command.
    pub aliases: Vec<String>,
    /// The handler's parameters behind the calling context, in order.
    pub parameters: Vec<Parameter>,
}

impl Declaration {
    /// The name under which the command is registered: `name` where it is
    /// given, else the handler's own name.
    pub open spec fn command_name(&self) -> Seq<char> {
        match self.name {
            Some(name) => name@,
            None => self.ident@,
        }
    }
}

/// Whether the parameter at `position` is required and follows an optional
/// one.
pub open spec fn misplaced(parameters: Seq<Parameter>, position: int) -> bool {
    &&& 0 <= position < parameters.len()
    &&& !parameters[position].spec_is_optional()
    &&& exists|k: int| 0 <= k < position && #[trigger] parameters[k].spec_is_optional()
}

/// Whether every parameter behind an optional one is optional too.
pub open spec fn optional_last(parameters: Seq<Parameter>) -> bool {
    forall|position: int| !misplaced(parameters, position)
}

/// The hints of `parameters`, in order: one for each parameter that has a
/// name.
pub open spec fn spec_hints(parameters: Seq<Parameter>) -> Seq<ArgHintView>
    decreases parameters.len(),
{
    if parameters.len() == 0 {
        Seq::empty()
    } else {
        let before = spec_hints(parameters.drop_last());
        match parameters.last().spec_hint() {
            Some(hint) => before.push(hint),
            None => before,
        }
    }
}

/// Registers the command that `decl` declares, with `handler` as its
/// handler and no level required of its callers.
///
/// A handler that is not asynchronous is refused; so is a required
/// parameter behind an optional one, and the error names the first such
/// parameter; so is a command name that holds no word.
pub fn bot_command<H>(decl: Declaration, handler: H) -> (r: Result<Command<H>, RegistrationError>)
    ensures
        match r {
            Ok(command) => {
                &&& decl.is_async
                &&& optional_last(decl.parameters@)
                &&& spec_split_words(decl.command_name()).len() > 0
                &&& command.name@ == decl.command_name()
                &&& command.aliases == decl.aliases
                &&& hint_views(command.arg_hints@) == spec_hints(decl.parameters@)
                &&& command.power_level_required == 0
                &&& command.handler == handler
            },
            Err(RegistrationError::NotAsync) => !decl.is_async,
            Err(RegistrationError::RequiredAfterOptional { position }) => {
                &&& decl.is_async
                &&& misplaced(decl.parameters@, position as int)
                &&& forall|before: int| 0 <= before < position ==> !misplaced(decl.parameters@, before)
            },
            Err(RegistrationError::EmptyName) => {
                &&& decl.is_async
                &&& optional_last(decl.parameters@)
                &&& spec_split_words(decl.command_name()).len() == 0
            },
        },
{
    if !decl.is_async {
        return Err(RegistrationError::NotAsync);
    }
    let ghost parameters = decl.parameters@;
    let mut arg_hints: Vec<CommandArgHint> = Vec::new();
    let mut seen_optional = false;
    let mut i: usize = 0;
    while i < decl.parameters.len()
        invariant
            i <= decl.parameters.len(),
            decl.is_async,
            parameters == decl.parameters@,
            seen_optional <==> exists|k: int| 0 <= k < i && #[trigger] parameters[k].spec_is_optional(),
            forall|before: int| 0 <= before < i ==> !misplaced(parameters, before),
            hint_views(arg_hints@) == spec_hints(parameters.take(i as int)),
        decreases decl.parameters.len() - i,
    {
        let parameter = &decl.parameters[i];
        let optional = parameter.is_optional();
        if seen_optional && !optional {
            return Err(RegistrationError::RequiredAfterOptional { position: i });
        }
        proof {
            assert(parameters.take(i + 1).drop_last() == parameters.take(i as int));
            assert(parameters.take(i + 1).last() == parameters[i as int]);
        }
        match parameter.hint() {
            Some(hint) => {
                proof {
                    assert(hint_views(arg_hints@.push(hint)) == hint_views(arg_hints@).push(hint@));
                }
                arg_hints.push(hint);
            },
            None => {},
        }
        if optional {
            seen_optional = true;
        }
        i += 1;
    }
    proof {
        assert(parameters.take(i as int) == parameters);
    }
    let name = match decl.name {
        Some(name) => name,
        None => decl.ident,
    };
    if split_words(name.as_str()).len() == 0 {
        return Err(RegistrationError::EmptyName);
    }
    Ok(Command { name, aliases: decl.aliases, arg_hints, power_level_required: 0, handler })
}

} // verus!
