//! Text preparation for records: control characters must not reach a record
//! as they are, since a record is one line.

use vstd::prelude::*;
use vstd::std_specs::iter::IteratorSpec;
use vstd::string::StringExecFns;

verus! {

/// A control character: one with a code below 32.
pub open spec fn is_control(c: char) -> bool {
    (c as u32) < 32
}

/// What stands for one character after escaping: a line feed becomes the two
/// characters `\n`, a carriage return the two characters `\r`, any other
/// control character nothing, and every other character itself.
pub open spec fn escaped_char(c: char) -> Seq<char> {
    if c == '\n' {
        seq!['\\', 'n']
    } else if c == '\r' {
        seq!['\\', 'r']
    } else if is_control(c) {
        Seq::empty()
    } else {
        seq![c]
    }
}

/// The text with each character escaped as `escaped_char` says.
pub open spec fn seq_string(src: Seq<char>) -> Seq<char>
    decreases src.len(),
{
    if src.len() == 0 {
        Seq::empty()
    } else {
        seq_string(src.drop_last()) + escaped_char(src.last())
    }
}

/// The text without its control characters.
pub open spec fn printable(src: Seq<char>) -> Seq<char>
    decreases src.len(),
{
    if src.len() == 0 {
        Seq::empty()
    } else if is_control(src.last()) {
        printable(src.drop_last())
    } else {
        printable(src.drop_last()).push(src.last())
    }
}

/// Escaped text holds no control character.
pub proof fn lemma_seq_string_has_no_control(src: Seq<char>)
    ensures
        forall|i: int| 0 <= i < seq_string(src).len() ==> !is_control(#[trigger] seq_string(src)[i]),
    decreases src.len(),
{
    if src.len() > 0 {
        lemma_seq_string_has_no_control(src.drop_last());
        let head = seq_string(src.drop_last());
        let tail = escaped_char(src.last());
        assert forall|i: int| 0 <= i < seq_string(src).len() implies !is_control(
            #[trigger] seq_string(src)[i],
        ) by {
            if i < head.len() {
                assert(seq_string(src)[i] == head[i]);
            } else {
                assert(seq_string(src)[i] == tail[i - head.len()]);
            }
        }
    }
}

/// Text without control characters is left as it is.
pub proof fn lemma_seq_string_keeps_plain_text(src: Seq<char>)
    requires
        forall|i: int| 0 <= i < src.len() ==> !is_control(#[trigger] src[i]),
    ensures
        seq_string(src) == src,
    decreases src.len(),
{
    if src.len() > 0 {
        lemma_seq_string_keeps_plain_text(src.drop_last());
        assert(src.drop_last().push(src.last()) == src);
    }
}

/// Escapes line feeds and carriage returns and drops the other control
/// characters.
pub fn format_seq_string(src: &str) -> (out: String)
    ensures
        out@ == seq_string(src@),
{
    let mut out = String::new();
    for c in it: src.chars()
        invariant
            it.seq() == src@,
            out@ == seq_string(it.seq().take(it.index() as int)),
    {
        proof {
            let longer = it.seq().take(it.index() + 1);
            assert(longer.drop_last() == it.seq().take(it.index() as int));
            assert(longer.last() == c);
        }
        if c == '\n' {
            out.append("\\n");
            proof {
                reveal_strlit("\\n");
                assert("\\n"@ == seq!['\\', 'n']);
            }
        } else if c == '\r' {
            out.append("\\r");
            proof {
                reveal_strlit("\\r");
                assert("\\r"@ == seq!['\\', 'r']);
            }
        } else if (c as u32) < 32 {
            assert(out@ + Seq::<char>::empty() == out@);
        } else {
            out.push(c);
        }
    }
    assert(src@.take(src@.len() as int) == src@);
    out
}

/// Drops the control characters.
pub fn format_value(src: &str) -> (out: String)
    ensures
        out@ == printable(src@),
{
    let mut out = String::new();
    for c in it: src.chars()
        invariant
            it.seq() == src@,
            out@ == printable(it.seq().take(it.index() as int)),
    {
        proof {
            let longer = it.seq().take(it.index() + 1);
            assert(longer.drop_last() == it.seq().take(it.index() as int));
            assert(longer.last() == c);
        }
        if (c as u32) >= 32 {
            out.push(c);
        }
    }
    assert(src@.take(src@.len() as int) == src@);
    out
}

} // verus!
