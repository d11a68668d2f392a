//! Terminal commands: an executable and its arguments, and how they are shown.
use vstd::prelude::*;
use crate::knowledge::operator::{opt_view, views};
use crate::text::{owned, push_str};

verus! {

/// A lowercase hexadecimal digit.
pub open spec fn json_hex_digit(d: u32) -> char {
    if d < 10 {
        (('0' as u32) + d) as char
    } else {
        (('a' as u32) + d - 10) as char
    }
}

/// How one character stands inside a JSON string: the quote and the
/// backslash behind a backslash, the five control characters with a short
/// escape by it, the other control characters below `0x20` as `\u00` and two
/// lowercase hexadecimal digits, every other character as itself.
pub open spec fn json_escaped_char(c: char) -> Seq<char> {
    let n = c as u32;
    if c == '"' {
        seq!['\\', '"']
    } else if c == '\\' {
        seq!['\\', '\\']
    } else if n == 8 {
        seq!['\\', 'b']
    } else if n == 9 {
        seq!['\\', 't']
    } else if n == 10 {
        seq!['\\', 'n']
    } else if n == 12 {
        seq!['\\', 'f']
    } else if n == 13 {
        seq!['\\', 'r']
    } else if n < 32 {
        seq!['\\', 'u', '0', '0', json_hex_digit(n / 16), json_hex_digit(n % 16)]
    } else {
        seq![c]
    }
}

/// The characters of a text, each as it stands inside a JSON string.
pub open spec fn json_escaped(s: Seq<char>) -> Seq<char>
    decreases s.len(),
{
    if s.len() == 0 {
        seq![]
    } else {
        json_escaped(s.drop_last()) + json_escaped_char(s.last())
    }
}

/// A text as a JSON string: escaped, between double quotes.
pub open spec fn json_quoted(s: Seq<char>) -> Seq<char> {
    seq!['"'] + json_escaped(s) + seq!['"']
}

/// JSON strings separated by commas.
pub open spec fn json_string_items(values: Seq<Seq<char>>) -> Seq<char>
    decreases values.len(),
{
    if values.len() == 0 {
        seq![]
    } else if values.len() == 1 {
        json_quoted(values[0])
    } else {
        json_string_items(values.drop_last()) + seq![','] + json_quoted(values.last())
    }
}

/// The JSON text `serde_json::to_string` writes for a string; it writes one
/// for every string.
#[verifier::opaque]
pub open spec fn json_string(value: Seq<char>) -> Option<Seq<char>> {
    Some(json_quoted(value))
}

/// The JSON text `serde_json::to_string` writes for a list of strings: the
/// strings between square brackets, separated by commas, with no spaces.
#[verifier::opaque]
pub open spec fn json_string_array(values: Seq<Seq<char>>) -> Option<Seq<char>> {
    Some(seq!['['] + json_string_items(values) + seq![']'])
}

/// Calls `serde_json::to_string` on a string. Trusted: its compact
/// serializer writes the string between double quotes and escapes exactly
/// the characters `json_escaped_char` escapes (its escape table), and writing
/// to memory does not fail.
#[verifier::external_body]
pub(crate) fn json_text(value: &str) -> (r: Option<String>)
    ensures
        opt_view(r) == json_string(value@),
{
    serde_json::to_string(value).ok()
}

/// Calls `serde_json::to_string` on a list of strings. Trusted: its compact
/// serializer writes `[`, the strings as `json_text` writes them separated by
/// `,`, and `]`, and writing to memory does not fail.
#[verifier::external_body]
pub(crate) fn command_json(command: &Vec<String>) -> (r: Option<String>)
    ensures
        opt_view(r) == json_string_array(views(command@)),
{
    serde_json::to_string(command).ok()
}

/// A text, or the fallback where there is none.
pub open spec fn or_text(o: Option<Seq<char>>, fallback: Seq<char>) -> Seq<char> {
    match o {
        Some(t) => t,
        None => fallback,
    }
}

/// One command to run: an executable, its arguments and, where set, the
/// directory to run it in.
#[derive(Debug, Clone, PartialEq, Eq)]
pub struct CommandInvocation {
    pub executable: String,
    pub arguments: Vec<String>,
    pub current_directory: Option<String>,
}

/// An invocation of exactly this executable and these arguments, in the
/// current directory.
pub open spec fn invocation_is(inv: CommandInvocation, executable: Seq<char>, arguments: Seq<Seq<char>>) -> bool {
    &&& inv.executable@ == executable
    &&& views(inv.arguments@) == arguments
    &&& inv.current_directory is None
}

/// How an invocation is shown: its executable, arguments and directory as JSON.
pub open spec fn render_spec(inv: CommandInvocation) -> Seq<char> {
    "exec="@ + or_text(json_string(inv.executable@), "\"<invalid>\""@) + " args="@ + or_text(
        json_string_array(views(inv.arguments@)),
        "[\"<invalid>\"]"@,
    ) + " cwd="@ + match inv.current_directory {
        None => "null"@,
        Some(d) => or_text(json_string(d@), "\"<invalid>\""@),
    }
}

impl CommandInvocation {
    pub fn render(&self) -> (r: String)
        ensures
            r@ == render_spec(*self),
    {
        let mut out = owned("exec=");
        match json_text(self.executable.as_str()) {
            Some(t) => push_str(&mut out, t.as_str()),
            None => push_str(&mut out, "\"<invalid>\""),
        }
        push_str(&mut out, " args=");
        match command_json(&self.arguments) {
            Some(t) => push_str(&mut out, t.as_str()),
            None => push_str(&mut out, "[\"<invalid>\"]"),
        }
        push_str(&mut out, " cwd=");
        match &self.current_directory {
            None => push_str(&mut out, "null"),
            Some(d) => match json_text(d.as_str()) {
                Some(t) => push_str(&mut out, t.as_str()),
                None => push_str(&mut out, "\"<invalid>\""),
            },
        }
        out
    }
}

/// Appends an argument.
pub fn push_arg(args: &mut Vec<String>, value: &str)
    ensures
        views(final(args)@) == views(old(args)@).push(value@),
{
    let ghost before = args@;
    args.push(owned(value));
    assert(views(args@) =~= views(before).push(value@));
}

/// The arguments that run a command after the options: `--` and the command,
/// or nothing for the default shell.
pub open spec fn command_args(command: Seq<Seq<char>>) -> Seq<Seq<char>> {
    if command.len() == 0 {
        Seq::empty()
    } else {
        seq!["--"@] + command
    }
}

/// Appends the arguments that run a command.
pub fn append_command(args: &mut Vec<String>, command: &Vec<String>)
    ensures
        views(final(args)@) == views(old(args)@) + command_args(views(command@)),
{
    let ghost before = views(args@);
    if command.len() > 0 {
        push_arg(args, "--");
        let ghost start = views(args@);
        let mut i: usize = 0;
        while i < command.len()
            invariant
                i <= command@.len(),
                views(args@) == start + views(command@).take(i as int),
            decreases command@.len() - i,
        {
            let ghost b = args@;
            args.push(command[i].clone());
            assert(views(args@) =~= views(b).push(command@[i as int]@));
            assert(views(command@).take(i + 1) =~= views(command@).take(i as int).push(command@[i as int]@));
            i = i + 1;
        }
        assert(views(command@).take(command@.len() as int) =~= views(command@));
        assert(views(args@) =~= before + command_args(views(command@)));
    } else {
        assert(views(command@) =~= Seq::<Seq<char>>::empty());
        assert(views(args@) =~= before + command_args(views(command@)));
    }
}

} // verus!
