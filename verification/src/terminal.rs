//! Text that is safe to print to a terminal: control characters are written
//! out as escapes instead of being sent to the terminal.
use vstd::prelude::*;

use crate::text::{char_code, chars_of, hex4, is_control_char, push_char, push_hex4, push_str};

verus! {

/// The escape of one character: `\e`, `\a`, `\n`, `\r`, `\t` for those five,
/// `\u{xxxx}` (four lowercase hex digits) for any other control character,
/// and the character itself otherwise.
pub open spec fn escape_char(c: char) -> Seq<char> {
    if c == '\u{1b}' {
        seq!['\\', 'e']
    } else if c == '\u{07}' {
        seq!['\\', 'a']
    } else if c == '\n' {
        seq!['\\', 'n']
    } else if c == '\r' {
        seq!['\\', 'r']
    } else if c == '\t' {
        seq!['\\', 't']
    } else if is_control_char(c) {
        seq!['\\', 'u', '{'] + hex4(c as nat) + seq!['}']
    } else {
        seq![c]
    }
}

/// Every character of `s` escaped, in order.
pub open spec fn escape_spec(s: Seq<char>) -> Seq<char>
    decreases s.len(),
{
    if s.len() == 0 {
        Seq::empty()
    } else {
        escape_spec(s.drop_last()) + escape_char(s.last())
    }
}

/// `value` with its control characters escaped.
pub fn escape_terminal_text(value: &str) -> (r: String)
    ensures
        r@ == escape_spec(value@),
{
    let chars = chars_of(value);
    let mut escaped = String::new();
    let mut i: usize = 0;
    while i < chars.len()
        invariant
            i <= chars@.len(),
            chars@ == value@,
            escaped@ == escape_spec(chars@.take(i as int)),
        decreases chars@.len() - i,
    {
        let ch = chars[i];
        let ghost before = escaped@;
        assert(chars@.take(i + 1).drop_last() =~= chars@.take(i as int));
        assert(chars@.take(i + 1).last() == ch);
        if ch == '\u{1b}' {
            push_char(&mut escaped, '\\');
            push_char(&mut escaped, 'e');
        } else if ch == '\u{07}' {
            push_char(&mut escaped, '\\');
            push_char(&mut escaped, 'a');
        } else if ch == '\n' {
            push_char(&mut escaped, '\\');
            push_char(&mut escaped, 'n');
        } else if ch == '\r' {
            push_char(&mut escaped, '\\');
            push_char(&mut escaped, 'r');
        } else if ch == '\t' {
            push_char(&mut escaped, '\\');
            push_char(&mut escaped, 't');
        } else if crate::text::char_is_control(ch) {
            push_char(&mut escaped, '\\');
            push_char(&mut escaped, 'u');
            push_char(&mut escaped, '{');
            push_hex4(&mut escaped, char_code(ch));
            push_char(&mut escaped, '}');
        } else {
            push_char(&mut escaped, ch);
        }
        assert(escaped@ =~= before + escape_char(ch));
        i += 1;
    }
    assert(chars@.take(chars@.len() as int) =~= chars@);
    escaped
}

proof fn lemma_hex4_printable(u: nat)
    requires
        u < 0x10000,
    ensures
        forall|k: int| 0 <= k < 4 ==> !is_control_char(#[trigger] hex4(u)[k]),
{
    assert(u / 4096 < 16) by (nonlinear_arith)
        requires
            u < 0x10000,
    ;
}

proof fn lemma_escape_char_printable(c: char)
    ensures
        forall|k: int|
            0 <= k < escape_char(c).len() ==> !is_control_char(#[trigger] escape_char(c)[k]),
{
    if is_control_char(c) && c != '\u{1b}' && c != '\u{07}' && c != '\n' && c != '\r' && c != '\t' {
        lemma_hex4_printable(c as nat);
        let e = escape_char(c);
        assert forall|k: int| 0 <= k < e.len() implies !is_control_char(#[trigger] e[k]) by {
            if 3 <= k < 7 {
                assert(e[k] == hex4(c as nat)[k - 3]);
            }
        }
    }
}

/// Escaped text holds no control character, whatever the input: nothing that
/// passes through `escape_terminal_text` can drive the terminal.
pub proof fn lemma_escaped_has_no_controls(s: Seq<char>)
    ensures
        forall|k: int| 0 <= k < escape_spec(s).len() ==> !is_control_char(#[trigger] escape_spec(s)[k]),
    decreases s.len(),
{
    if s.len() > 0 {
        lemma_escaped_has_no_controls(s.drop_last());
        lemma_escape_char_printable(s.last());
        let a = escape_spec(s.drop_last());
        let b = escape_char(s.last());
        assert forall|k: int| 0 <= k < escape_spec(s).len() implies !is_control_char(
            #[trigger] escape_spec(s)[k],
        ) by {
            if k < a.len() {
                assert(escape_spec(s)[k] == a[k]);
            } else {
                assert(escape_spec(s)[k] == b[k - a.len()]);
            }
        }
    }
}

/// Text without control characters is printed as it is.
pub proof fn lemma_printable_text_unchanged(s: Seq<char>)
    requires
        forall|k: int| 0 <= k < s.len() ==> !is_control_char(#[trigger] s[k]),
    ensures
        escape_spec(s) == s,
    decreases s.len(),
{
    if s.len() > 0 {
        let p = s.drop_last();
        assert forall|k: int| 0 <= k < p.len() implies !is_control_char(#[trigger] p[k]) by {
            assert(p[k] == s[k]);
        }
        lemma_printable_text_unchanged(p);
        assert(!is_control_char(s[s.len() - 1]));
        assert(s =~= p.push(s.last()));
    }
}

} // verus!
