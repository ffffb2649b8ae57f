//! Texts: the marker in a workspace name, and the commands sent to the
//! window manager.

use vstd::prelude::*;

verus! {

/// The character that writes a digit.
pub open spec fn digit_char(d: nat) -> char {
    if d == 0 {
        '0'
    } else if d == 1 {
        '1'
    } else if d == 2 {
        '2'
    } else if d == 3 {
        '3'
    } else if d == 4 {
        '4'
    } else if d == 5 {
        '5'
    } else if d == 6 {
        '6'
    } else if d == 7 {
        '7'
    } else if d == 8 {
        '8'
    } else {
        '9'
    }
}

/// A number written in decimal, without sign or leading zeros.
pub open spec fn decimal(n: nat) -> Seq<char>
    decreases n,
{
    if n < 10 {
        seq![digit_char(n)]
    } else {
        decimal(n / 10).push(digit_char(n % 10))
    }
}

/// The command that moves the focus to a workspace.
pub open spec fn focus_text(id: nat) -> Seq<char> {
    "workspace "@ + decimal(id)
}

/// The command that moves the focused window to a workspace.
pub open spec fn carry_text(id: nat) -> Seq<char> {
    "move container to workspace "@ + decimal(id)
}

/// The substring that marks a workspace as the one to return to.
pub open spec fn marker() -> Seq<char> {
    seq!['_', 'a', 'c', 't']
}

/// Whether the marker stands in the text at the given position.
pub open spec fn marker_at(text: Seq<char>, i: int) -> bool {
    0 <= i && i + marker().len() <= text.len() && text.subrange(i, i + marker().len())
        == marker()
}

/// Whether the marker stands anywhere in the text.
pub open spec fn has_marker(text: Seq<char>) -> bool {
    exists|i: int| marker_at(text, i)
}

fn digit_text(d: u32) -> (text: &'static str)
    requires
        d < 10,
    ensures
        text@ == seq![digit_char(d as nat)],
{
    proof {
        reveal_strlit("0");
        reveal_strlit("1");
        reveal_strlit("2");
        reveal_strlit("3");
        reveal_strlit("4");
        reveal_strlit("5");
        reveal_strlit("6");
        reveal_strlit("7");
        reveal_strlit("8");
        reveal_strlit("9");
    }
    let text = if d == 0 {
        "0"
    } else if d == 1 {
        "1"
    } else if d == 2 {
        "2"
    } else if d == 3 {
        "3"
    } else if d == 4 {
        "4"
    } else if d == 5 {
        "5"
    } else if d == 6 {
        "6"
    } else if d == 7 {
        "7"
    } else if d == 8 {
        "8"
    } else {
        "9"
    };
    assert(text@ =~= seq![digit_char(d as nat)]);
    text
}

/// Appends a number in decimal to a text.
fn append_decimal(text: &mut String, n: u32)
    ensures
        final(text)@ == old(text)@ + decimal(n as nat),
    decreases n,
{
    if n < 10 {
        text.append(digit_text(n));
    } else {
        append_decimal(text, n / 10);
        text.append(digit_text(n % 10));
        assert(text@ =~= old(text)@ + decimal(n as nat));
    }
}

/// Writes the command that moves the focus to a workspace.
pub fn focus_command(id: u32) -> (text: String)
    ensures
        text@ == focus_text(id as nat),
{
    let mut text = String::from_str("workspace ");
    append_decimal(&mut text, id);
    text
}

/// Writes the command that moves the focused window to a workspace.
pub fn carry_command(id: u32) -> (text: String)
    ensures
        text@ == carry_text(id as nat),
{
    let mut text = String::from_str("move container to workspace ");
    append_decimal(&mut text, id);
    text
}

/// Tells whether a workspace name carries the marker.
pub fn is_marked(name: &String) -> (marked: bool)
    ensures
        marked == has_marker(name@),
{
    let mut chars: Vec<char> = Vec::new();
    for c in it: name.as_str().chars()
        invariant
            chars@ == it.seq().take(it.index()),
    {
        chars.push(c);
    }
    assert(chars@ == name@);
    let n: usize = chars.len();
    let mut i: usize = 0;
    while n >= 4 && i <= n - 4
        invariant
            chars@ == name@,
            n == chars@.len(),
            forall|j: int| 0 <= j < i ==> !marker_at(name@, j),
        decreases n - i,
    {
        if chars[i] == '_' && chars[i + 1] == 'a' && chars[i + 2] == 'c' && chars[i + 3] == 't' {
            assert(name@.subrange(i as int, i + 4) =~= marker());
            assert(marker_at(name@, i as int));
            return true;
        }
        assert(!marker_at(name@, i as int)) by {
            if marker_at(name@, i as int) {
                let part = name@.subrange(i as int, i + 4);
                assert(part[0] == '_' && part[1] == 'a' && part[2] == 'c' && part[3] == 't');
            }
        }
        i += 1;
    }
    false
}

} // verus!
