//! Reading the commands that the front ends send as strings.
use vstd::prelude::*;

verus! {

/// A command of the user interface.
#[derive(Clone, Copy, Debug, PartialEq, Eq, Structural)]
pub enum Command {
    PlayPause,
    Next,
    Prev,
    Cancel,
    SearchNotFound,
    SearchSolverError,
    Mode,
    SpeedDown,
    SpeedUp,
    /// Select the pattern with this number (0 to 9).
    Digit(u8),
    /// Anything else.
    Unknown,
}

/// The command that the string `key` names.
pub open spec fn command_of(key: Seq<char>) -> Command {
    if key == "play_pause"@ {
        Command::PlayPause
    } else if key == "next"@ {
        Command::Next
    } else if key == "prev"@ {
        Command::Prev
    } else if key == "cancel"@ {
        Command::Cancel
    } else if key == "search_not_found"@ {
        Command::SearchNotFound
    } else if key == "search_solver_error"@ {
        Command::SearchSolverError
    } else if key == "mode"@ {
        Command::Mode
    } else if key == "speed_down"@ {
        Command::SpeedDown
    } else if key == "speed_up"@ {
        Command::SpeedUp
    } else if key.len() == 1 && '0' <= key[0] <= '9' {
        Command::Digit((key[0] as u32 - '0' as u32) as u8)
    } else {
        Command::Unknown
    }
}

/// The characters of `s`.
pub fn chars_of(s: &str) -> (v: Vec<char>)
    ensures
        v@ == s@,
{
    let mut v: Vec<char> = Vec::new();
    for ch in it: s.chars()
        invariant
            it.seq() == s@,
            v@ == s@.take(it.index()),
    {
        v.push(ch);
        assert(v@ =~= s@.take(it.index() + 1));
    }
    assert(v@ =~= s@);
    v
}

/// Whether the characters `a` spell `b`.
fn spells(a: &Vec<char>, b: &str) -> (same: bool)
    ensures
        same == (a@ == b@),
{
    let bv = chars_of(b);
    if a.len() != bv.len() {
        return false;
    }
    let mut i: usize = 0;
    while i < a.len()
        invariant
            a.len() == bv.len(),
            bv@ == b@,
            i <= a.len(),
            forall|j: int| 0 <= j < i ==> a@[j] == bv@[j],
        decreases a.len() - i,
    {
        if a[i] != bv[i] {
            return false;
        }
        i = i + 1;
    }
    assert(a@ =~= bv@);
    true
}

/// Reads the command that `key` names.
pub fn parse_command(key: &str) -> (command: Command)
    ensures
        command == command_of(key@),
{
    let k = chars_of(key);
    if spells(&k, "play_pause") {
        Command::PlayPause
    } else if spells(&k, "next") {
        Command::Next
    } else if spells(&k, "prev") {
        Command::Prev
    } else if spells(&k, "cancel") {
        Command::Cancel
    } else if spells(&k, "search_not_found") {
        Command::SearchNotFound
    } else if spells(&k, "search_solver_error") {
        Command::SearchSolverError
    } else if spells(&k, "mode") {
        Command::Mode
    } else if spells(&k, "speed_down") {
        Command::SpeedDown
    } else if spells(&k, "speed_up") {
        Command::SpeedUp
    } else if k.len() == 1 && '0' <= k[0] && k[0] <= '9' {
        Command::Digit(((k[0] as u32) - ('0' as u32)) as u8)
    } else {
        Command::Unknown
    }
}

/// The character of the decimal digit `d`.
pub open spec fn digit_char(d: u8) -> char {
    ((d as u32) + 48) as char
}

/// The key of one decimal digit `d` reads as the command that selects pattern `d`.
pub proof fn lemma_digit_commands(d: u8)
    requires
        d < 10,
    ensures
        command_of(seq![digit_char(d)]) == Command::Digit(d),
{
    let ch = digit_char(d);
    assert('0' <= ch <= '9');
    reveal_strlit("play_pause");
    reveal_strlit("next");
    reveal_strlit("prev");
    reveal_strlit("cancel");
    reveal_strlit("search_not_found");
    reveal_strlit("search_solver_error");
    reveal_strlit("mode");
    reveal_strlit("speed_down");
    reveal_strlit("speed_up");
    lemma_one_char(ch, "play_pause"@);
    lemma_one_char(ch, "next"@);
    lemma_one_char(ch, "prev"@);
    lemma_one_char(ch, "cancel"@);
    lemma_one_char(ch, "search_not_found"@);
    lemma_one_char(ch, "search_solver_error"@);
    lemma_one_char(ch, "mode"@);
    lemma_one_char(ch, "speed_down"@);
    lemma_one_char(ch, "speed_up"@);
}

/// The command that the browser key `key` is bound to, by name.
pub open spec fn key_binding(key: Seq<char>) -> Option<Seq<char>> {
    if key == " "@ {
        Some("play_pause"@)
    } else if key == "n"@ || key == "N"@ {
        Some("next"@)
    } else if key == "p"@ || key == "P"@ {
        Some("prev"@)
    } else if key == "Escape"@ {
        Some("cancel"@)
    } else if key == "m"@ || key == "M"@ {
        Some("mode"@)
    } else if key == "]"@ {
        Some("speed_up"@)
    } else if key == "["@ {
        Some("speed_down"@)
    } else if key == "0"@ || key == "1"@ || key == "2"@ || key == "3"@ || key == "4"@ || key == "5"@
        || key == "6"@ || key == "7"@ || key == "8"@ || key == "9"@ {
        Some(key)
    } else {
        None
    }
}

/// The capital of the lower-case letter `ch`.
pub open spec fn capital(ch: char) -> char {
    ((ch as u32) - 32) as char
}

/// A one-character key is `s`, a literal of one character, exactly when its character is
/// the one of `s`.
proof fn lemma_one_char(ch: char, s: Seq<char>)
    ensures
        s.len() == 1 ==> (seq![ch] == s <==> ch == s[0]),
        s.len() != 1 ==> seq![ch] != s,
{
    if s.len() == 1 && ch == s[0] {
        assert(seq![ch] =~= s);
    }
}

/// Letter keys are bound whatever their case: a lower-case letter and its capital are
/// bound to the same command, `p` to the search for a predecessor, `n` to the next
/// generation and `m` to the colour mode.
pub proof fn lemma_letter_keys(ch: char)
    requires
        'a' <= ch <= 'z',
    ensures
        key_binding(seq![ch]) == key_binding(seq![capital(ch)]),
        key_binding("p"@) == Some("prev"@),
        key_binding("n"@) == Some("next"@),
        key_binding("m"@) == Some("mode"@),
{
    reveal_strlit(" ");
    reveal_strlit("n");
    reveal_strlit("N");
    reveal_strlit("p");
    reveal_strlit("P");
    reveal_strlit("Escape");
    reveal_strlit("m");
    reveal_strlit("M");
    reveal_strlit("]");
    reveal_strlit("[");
    reveal_strlit("0");
    reveal_strlit("1");
    reveal_strlit("2");
    reveal_strlit("3");
    reveal_strlit("4");
    reveal_strlit("5");
    reveal_strlit("6");
    reveal_strlit("7");
    reveal_strlit("8");
    reveal_strlit("9");
    let up = capital(ch);
    assert('A' <= up <= 'Z');
    lemma_one_char(ch, " "@);
    lemma_one_char(ch, "n"@);
    lemma_one_char(ch, "N"@);
    lemma_one_char(ch, "p"@);
    lemma_one_char(ch, "P"@);
    lemma_one_char(ch, "Escape"@);
    lemma_one_char(ch, "m"@);
    lemma_one_char(ch, "M"@);
    lemma_one_char(ch, "]"@);
    lemma_one_char(ch, "["@);
    lemma_one_char(ch, "0"@);
    lemma_one_char(ch, "1"@);
    lemma_one_char(ch, "2"@);
    lemma_one_char(ch, "3"@);
    lemma_one_char(ch, "4"@);
    lemma_one_char(ch, "5"@);
    lemma_one_char(ch, "6"@);
    lemma_one_char(ch, "7"@);
    lemma_one_char(ch, "8"@);
    lemma_one_char(ch, "9"@);
    lemma_one_char(up, " "@);
    lemma_one_char(up, "n"@);
    lemma_one_char(up, "N"@);
    lemma_one_char(up, "p"@);
    lemma_one_char(up, "P"@);
    lemma_one_char(up, "Escape"@);
    lemma_one_char(up, "m"@);
    lemma_one_char(up, "M"@);
    lemma_one_char(up, "]"@);
    lemma_one_char(up, "["@);
    lemma_one_char(up, "0"@);
    lemma_one_char(up, "1"@);
    lemma_one_char(up, "2"@);
    lemma_one_char(up, "3"@);
    lemma_one_char(up, "4"@);
    lemma_one_char(up, "5"@);
    lemma_one_char(up, "6"@);
    lemma_one_char(up, "7"@);
    lemma_one_char(up, "8"@);
    lemma_one_char(up, "9"@);
}

/// Every digit key is bound to the command of its own digit.
pub proof fn lemma_digit_keys(d: u8)
    requires
        d < 10,
    ensures
        key_binding(seq![digit_char(d)]) == Some(seq![digit_char(d)]),
{
    let ch = digit_char(d);
    reveal_strlit(" ");
    reveal_strlit("n");
    reveal_strlit("N");
    reveal_strlit("p");
    reveal_strlit("P");
    reveal_strlit("Escape");
    reveal_strlit("m");
    reveal_strlit("M");
    reveal_strlit("]");
    reveal_strlit("[");
    reveal_strlit("0");
    reveal_strlit("1");
    reveal_strlit("2");
    reveal_strlit("3");
    reveal_strlit("4");
    reveal_strlit("5");
    reveal_strlit("6");
    reveal_strlit("7");
    reveal_strlit("8");
    reveal_strlit("9");
    lemma_one_char(ch, " "@);
    lemma_one_char(ch, "n"@);
    lemma_one_char(ch, "N"@);
    lemma_one_char(ch, "p"@);
    lemma_one_char(ch, "P"@);
    lemma_one_char(ch, "Escape"@);
    lemma_one_char(ch, "m"@);
    lemma_one_char(ch, "M"@);
    lemma_one_char(ch, "]"@);
    lemma_one_char(ch, "["@);
    lemma_one_char(ch, "0"@);
    lemma_one_char(ch, "1"@);
    lemma_one_char(ch, "2"@);
    lemma_one_char(ch, "3"@);
    lemma_one_char(ch, "4"@);
    lemma_one_char(ch, "5"@);
    lemma_one_char(ch, "6"@);
    lemma_one_char(ch, "7"@);
    lemma_one_char(ch, "8"@);
    lemma_one_char(ch, "9"@);
}

/// The name of the command that the browser key `key` is bound to, if any.
pub fn key_to_command(key: &str) -> (command: Option<&'static str>)
    ensures
        match key_binding(key@) {
            Some(name) => command is Some && command.unwrap()@ == name,
            None => command is None,
        },
{
    let k = chars_of(key);
    if spells(&k, " ") {
        Some("play_pause")
    } else if spells(&k, "n") || spells(&k, "N") {
        Some("next")
    } else if spells(&k, "p") || spells(&k, "P") {
        Some("prev")
    } else if spells(&k, "Escape") {
        Some("cancel")
    } else if spells(&k, "m") || spells(&k, "M") {
        Some("mode")
    } else if spells(&k, "]") {
        Some("speed_up")
    } else if spells(&k, "[") {
        Some("speed_down")
    } else if spells(&k, "0") {
        Some("0")
    } else if spells(&k, "1") {
        Some("1")
    } else if spells(&k, "2") {
        Some("2")
    } else if spells(&k, "3") {
        Some("3")
    } else if spells(&k, "4") {
        Some("4")
    } else if spells(&k, "5") {
        Some("5")
    } else if spells(&k, "6") {
        Some("6")
    } else if spells(&k, "7") {
        Some("7")
    } else if spells(&k, "8") {
        Some("8")
    } else if spells(&k, "9") {
        Some("9")
    } else {
        None
    }
}

} // verus!
