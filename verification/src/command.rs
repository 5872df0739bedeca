//! Reading the command line into an action, and the effects that carrying
//! out an action has on the outside world.

use vstd::prelude::*;
use vstd::utf8::{decode_utf8, valid_utf8};
use crate::text::{str_equal, string_views};

verus! {

/// What the user asked for.
#[derive(Debug, Clone, PartialEq)]
pub enum Action {
    Start(String),
    Stop(String),
    Shutdown(String),
    Restart(String),
    Poweroff(String),
    Reboot(String),
    HangUp(String),
    List,
    Scan,
}

/// An action by views.
pub enum ActionSpec {
    Start(Seq<char>),
    Stop(Seq<char>),
    Shutdown(Seq<char>),
    Restart(Seq<char>),
    Poweroff(Seq<char>),
    Reboot(Seq<char>),
    HangUp(Seq<char>),
    List,
    Scan,
}

impl View for Action {
    type V = ActionSpec;

    open spec fn view(&self) -> ActionSpec {
        match self {
            Action::Start(n) => ActionSpec::Start(n@),
            Action::Stop(n) => ActionSpec::Stop(n@),
            Action::Shutdown(n) => ActionSpec::Shutdown(n@),
            Action::Restart(n) => ActionSpec::Restart(n@),
            Action::Poweroff(n) => ActionSpec::Poweroff(n@),
            Action::Reboot(n) => ActionSpec::Reboot(n@),
            Action::HangUp(n) => ActionSpec::HangUp(n@),
            Action::List => ActionSpec::List,
            Action::Scan => ActionSpec::Scan,
        }
    }
}

/// Why a command line names no action.
#[derive(Debug, Clone, PartialEq)]
pub enum CommandError {
    /// Fewer than two arguments.
    Usage,
    /// The action word is not known.
    Invalid(String),
}

/// A command-line error by views.
pub enum CommandErrorSpec {
    Usage,
    Invalid(Seq<char>),
}

impl View for CommandError {
    type V = CommandErrorSpec;

    open spec fn view(&self) -> CommandErrorSpec {
        match self {
            CommandError::Usage => CommandErrorSpec::Usage,
            CommandError::Invalid(w) => CommandErrorSpec::Invalid(w@),
        }
    }
}

/// The action that the word `word` names for the machine `name`, where
/// `scan_word` is the word for a rescan.
pub open spec fn word_action(word: Seq<char>, name: Seq<char>, scan_word: Seq<char>) -> Option<ActionSpec> {
    if word == "start"@ {
        Some(ActionSpec::Start(name))
    } else if word == "stop"@ {
        Some(ActionSpec::Stop(name))
    } else if word == "shutdown"@ {
        Some(ActionSpec::Shutdown(name))
    } else if word == "restart"@ {
        Some(ActionSpec::Restart(name))
    } else if word == "poweroff"@ {
        Some(ActionSpec::Poweroff(name))
    } else if word == "reboot"@ {
        Some(ActionSpec::Reboot(name))
    } else if word == "hangup"@ {
        Some(ActionSpec::HangUp(name))
    } else if word == "list"@ {
        Some(ActionSpec::List)
    } else if word == scan_word {
        Some(ActionSpec::Scan)
    } else {
        None
    }
}

/// The word names an action on a machine, so a machine name must follow it.
pub open spec fn takes_name(word: Seq<char>) -> bool {
    word == "start"@ || word == "stop"@ || word == "shutdown"@ || word == "restart"@ || word
        == "poweroff"@ || word == "reboot"@ || word == "hangup"@
}

/// A command line `program word [name]` read as an action.
pub open spec fn parse_args(args: Seq<Seq<char>>, scan_word: Seq<char>) -> Result<
    ActionSpec,
    CommandErrorSpec,
> {
    if args.len() < 2 {
        Err(CommandErrorSpec::Usage)
    } else {
        let name = if args.len() >= 3 { args[2] } else { Seq::empty() };
        match word_action(args[1], name, scan_word) {
            Some(a) => Ok(a),
            None => Err(CommandErrorSpec::Invalid(args[1])),
        }
    }
}

/// The outcome of `parse_args` by views.
pub open spec fn parsed_view(r: Result<Action, CommandError>) -> Result<ActionSpec, CommandErrorSpec> {
    match r {
        Ok(a) => Ok(a@),
        Err(e) => Err(e@),
    }
}

/// Reads `program word [name]`; `scan_word` is the word for a rescan. Where
/// the word needs a machine name, the name must be there.
pub fn parse_words(args: &Vec<String>, scan_word: &str) -> (r: Result<Action, CommandError>)
    requires
        args.len() >= 2 && takes_name(args@[1]@) ==> args.len() >= 3,
    ensures
        parsed_view(r) == parse_args(string_views(args@), scan_word@),
{
    let ghost views = string_views(args@);
    if args.len() < 2 {
        return Err(CommandError::Usage);
    }
    assert(views[1] == args@[1]@);
    let word = args[1].as_str();
    proof {
        reveal_strlit("start");
        reveal_strlit("stop");
        reveal_strlit("shutdown");
        reveal_strlit("restart");
        reveal_strlit("poweroff");
        reveal_strlit("reboot");
        reveal_strlit("hangup");
        reveal_strlit("list");
    }
    if takes_name_word(word) {
        assert(views[2] == args@[2]@);
        let name = args[2].clone();
        if str_equal(word, "start") {
            Ok(Action::Start(name))
        } else if str_equal(word, "stop") {
            Ok(Action::Stop(name))
        } else if str_equal(word, "shutdown") {
            Ok(Action::Shutdown(name))
        } else if str_equal(word, "restart") {
            Ok(Action::Restart(name))
        } else if str_equal(word, "poweroff") {
            Ok(Action::Poweroff(name))
        } else if str_equal(word, "reboot") {
            Ok(Action::Reboot(name))
        } else {
            Ok(Action::HangUp(name))
        }
    } else if str_equal(word, "list") {
        Ok(Action::List)
    } else if str_equal(word, scan_word) {
        Ok(Action::Scan)
    } else {
        Err(CommandError::Invalid(args[1].clone()))
    }
}

/// Whether `word` names an action on a machine.
pub fn takes_name_word(word: &str) -> (r: bool)
    ensures
        r == takes_name(word@),
{
    str_equal(word, "start") || str_equal(word, "stop") || str_equal(word, "shutdown")
        || str_equal(word, "restart") || str_equal(word, "poweroff") || str_equal(word, "reboot")
        || str_equal(word, "hangup")
}


/// The word that names an action, given the rescan word.
pub open spec fn action_word(a: ActionSpec, scan_word: Seq<char>) -> Seq<char> {
    match a {
        ActionSpec::Start(_) => "start"@,
        ActionSpec::Stop(_) => "stop"@,
        ActionSpec::Shutdown(_) => "shutdown"@,
        ActionSpec::Restart(_) => "restart"@,
        ActionSpec::Poweroff(_) => "poweroff"@,
        ActionSpec::Reboot(_) => "reboot"@,
        ActionSpec::HangUp(_) => "hangup"@,
        ActionSpec::List => "list"@,
        ActionSpec::Scan => scan_word,
    }
}

/// The command line `program word [name]` that asks for `a`.
pub open spec fn command_line(program: Seq<char>, a: ActionSpec, scan_word: Seq<char>) -> Seq<Seq<char>> {
    match a {
        ActionSpec::Start(n) => seq![program, action_word(a, scan_word), n],
        ActionSpec::Stop(n) => seq![program, action_word(a, scan_word), n],
        ActionSpec::Shutdown(n) => seq![program, action_word(a, scan_word), n],
        ActionSpec::Restart(n) => seq![program, action_word(a, scan_word), n],
        ActionSpec::Poweroff(n) => seq![program, action_word(a, scan_word), n],
        ActionSpec::Reboot(n) => seq![program, action_word(a, scan_word), n],
        ActionSpec::HangUp(n) => seq![program, action_word(a, scan_word), n],
        _ => seq![program, action_word(a, scan_word)],
    }
}

/// Every action can be asked for on the command line, and reading that
/// command line gives the action back, for either rescan word in use.
pub proof fn lemma_command_line_round_trip(program: Seq<char>, a: ActionSpec, scan_word: Seq<char>)
    requires
        scan_word == "scan"@ || scan_word == "Scan"@,
    ensures
        parse_args(command_line(program, a, scan_word), scan_word) == Ok::<ActionSpec, CommandErrorSpec>(a),
        command_line(program, a, scan_word).len() >= 2 && takes_name(command_line(program, a, scan_word)[1])
            ==> command_line(program, a, scan_word).len() >= 3,
{
    reveal_strlit("start");
    reveal_strlit("stop");
    reveal_strlit("shutdown");
    reveal_strlit("restart");
    reveal_strlit("poweroff");
    reveal_strlit("reboot");
    reveal_strlit("hangup");
    reveal_strlit("list");
    reveal_strlit("scan");
    reveal_strlit("Scan");
    let words = seq!["start"@, "stop"@, "shutdown"@, "restart"@, "poweroff"@, "reboot"@, "hangup"@, "list"@, "scan"@, "Scan"@];
    assert forall|i: int, j: int| 0 <= i < j < words.len() implies words[i] != words[j] by {
        if words[i].len() == words[j].len() {
            assert(words[i][0] != words[j][0] || words[i][1] != words[j][1] || words[i][2] != words[j][2]);
        }
    }
    assert(words[0] == "start"@);
    assert(words[1] == "stop"@);
    assert(words[2] == "shutdown"@);
    assert(words[3] == "restart"@);
    assert(words[4] == "poweroff"@);
    assert(words[5] == "reboot"@);
    assert(words[6] == "hangup"@);
    assert(words[7] == "list"@);
    assert(words[8] == "scan"@);
    assert(words[9] == "Scan"@);
}


/// Reading a command line: fewer than two arguments is a usage error; a
/// second argument that is none of the action words is reported as invalid,
/// with that word; otherwise the action read is the one that word names, on
/// the machine named by the third argument where the action needs one.
pub proof fn lemma_parse_args_reads_word(args: Seq<Seq<char>>, scan_word: Seq<char>)
    requires
        scan_word == "scan"@ || scan_word == "Scan"@,
    ensures
        (parse_args(args, scan_word) == Err::<ActionSpec, CommandErrorSpec>(CommandErrorSpec::Usage)) <==> args.len() < 2,
        args.len() >= 2 ==> ((parse_args(args, scan_word) == Err::<ActionSpec, CommandErrorSpec>(CommandErrorSpec::Invalid(args[1])))
            <==> !seq!["start"@, "stop"@, "shutdown"@, "restart"@, "poweroff"@, "reboot"@, "hangup"@, "list"@, scan_word].contains(args[1])),
        parse_args(args, scan_word) is Ok ==> action_word(parse_args(args, scan_word)->Ok_0, scan_word) == args[1],
        parse_args(args, scan_word) is Ok && takes_name(args[1]) && args.len() >= 3 ==> match parse_args(args, scan_word)->Ok_0 {
            ActionSpec::Start(n) | ActionSpec::Stop(n) | ActionSpec::Shutdown(n) | ActionSpec::Restart(n)
            | ActionSpec::Poweroff(n) | ActionSpec::Reboot(n) | ActionSpec::HangUp(n) => n == args[2],
            _ => false,
        },
{
    let words = seq!["start"@, "stop"@, "shutdown"@, "restart"@, "poweroff"@, "reboot"@, "hangup"@, "list"@, scan_word];
    if args.len() >= 2 {
        let w = args[1];
        if words.contains(w) {
            let k = choose|k: int| 0 <= k < words.len() && words[k] == w;
            assert(k == 0 || k == 1 || k == 2 || k == 3 || k == 4 || k == 5 || k == 6 || k == 7 || k == 8);
        } else {
            assert(words[0] != w && words[1] != w && words[2] != w && words[3] != w && words[4] != w);
            assert(words[5] != w && words[6] != w && words[7] != w && words[8] != w);
        }
    }
}

/// What carrying out an action does.
#[derive(Debug, Clone, PartialEq)]
pub enum Effect {
    /// Run `vmrun` with these arguments.
    Vmrun(Vec<String>),
    /// Print these lines on standard output.
    Show(Vec<String>),
    /// Report on standard error that no machine has this name.
    Complain(String),
    /// Create the configuration directory and file.
    CreateConfDir,
    /// Scan the configured directories again and store the result.
    Rescan,
}

/// An effect by views.
pub enum EffectSpec {
    Vmrun(Seq<Seq<char>>),
    Show(Seq<Seq<char>>),
    Complain(Seq<char>),
    CreateConfDir,
    Rescan,
}

impl View for Effect {
    type V = EffectSpec;

    open spec fn view(&self) -> EffectSpec {
        match self {
            Effect::Vmrun(a) => EffectSpec::Vmrun(string_views(a@)),
            Effect::Show(l) => EffectSpec::Show(string_views(l@)),
            Effect::Complain(n) => EffectSpec::Complain(n@),
            Effect::CreateConfDir => EffectSpec::CreateConfDir,
            Effect::Rescan => EffectSpec::Rescan,
        }
    }
}

/// Calls `String::from_utf8`: it gives a string exactly when the bytes are
/// valid UTF-8, and then the string they encode.
#[verifier::external_body]
fn utf8_string(bytes: Vec<u8>) -> (r: Option<String>)
    ensures
        r.is_some() == valid_utf8(bytes@),
        r.is_some() ==> r.unwrap()@ == decode_utf8(bytes@),
{
    String::from_utf8(bytes).ok()
}

/// What a `vmrun` run reports: its standard output as text, or
/// `Exec Error!` when that output is not UTF-8.
pub fn decode_command_output(stdout: Vec<u8>) -> (r: String)
    ensures
        valid_utf8(stdout@) ==> r@ == decode_utf8(stdout@),
        !valid_utf8(stdout@) ==> r@ == "Exec Error!"@,
{
    match utf8_string(stdout) {
        Some(s) => s,
        None => String::from_str("Exec Error!"),
    }
}

} // verus!
