//! The pool of fresh names, read from a word list with one name per line.
use vstd::prelude::*;
use vstd::string::*;
use vstd::utf8::*;

verus! {

broadcast use {vstd::std_specs::vec::group_vec_axioms, vstd::utf8::group_utf8_lib};

/// The pieces of `b` between newline bytes, with `cur` prefixed to the
/// first: every newline ends a piece, and the last piece runs to the end.
pub open spec fn lines_from(b: Seq<u8>, cur: Seq<u8>) -> Seq<Seq<u8>>
    decreases b.len(),
{
    if b.len() == 0 {
        seq![cur]
    } else if b[0] == 10u8 {
        seq![cur] + lines_from(b.drop_first(), seq![])
    } else {
        lines_from(b.drop_first(), cur.push(b[0]))
    }
}

/// The lines of a text, as bytes: one piece per newline, plus the last.
pub open spec fn lines_of(b: Seq<u8>) -> Seq<Seq<u8>> {
    lines_from(b, seq![])
}

proof fn lemma_lines_from_newline(b: Seq<u8>, cur: Seq<u8>, j: int)
    requires
        0 <= j < b.len(),
        b[j] == 10u8,
        forall|k: int| 0 <= k < j ==> b[k] != 10u8,
    ensures
        lines_from(b, cur) == seq![cur + b.subrange(0, j)] + lines_from(
            b.subrange(j + 1, b.len() as int),
            seq![],
        ),
    decreases j,
{
    if j == 0 {
        assert(cur + b.subrange(0, 0) =~= cur);
        assert(b.drop_first() =~= b.subrange(1, b.len() as int));
    } else {
        let t = b.drop_first();
        lemma_lines_from_newline(t, cur.push(b[0]), j - 1);
        assert(cur.push(b[0]) + t.subrange(0, j - 1) =~= cur + b.subrange(0, j));
        assert(t.subrange(j, t.len() as int) =~= b.subrange(j + 1, b.len() as int));
    }
}

proof fn lemma_lines_from_last(b: Seq<u8>, cur: Seq<u8>)
    requires
        forall|k: int| 0 <= k < b.len() ==> b[k] != 10u8,
    ensures
        lines_from(b, cur) == seq![cur + b],
    decreases b.len(),
{
    if b.len() == 0 {
        assert(cur + b =~= cur);
    } else {
        let t = b.drop_first();
        lemma_lines_from_last(t, cur.push(b[0]));
        assert(cur.push(b[0]) + t =~= cur + b);
    }
}

/// Index of the first newline byte of `s`, or `None` when it has none.
fn find_newline(s: &str) -> (r: Option<usize>)
    ensures
        match r {
            Some(j) => j < s.spec_bytes().len() && s.spec_bytes()[j as int] == 10u8 && forall|k: int|
                0 <= k < j ==> s.spec_bytes()[k] != 10u8,
            None => forall|k: int| 0 <= k < s.spec_bytes().len() ==> s.spec_bytes()[k] != 10u8,
        },
{
    let bytes = s.as_bytes();
    let mut j: usize = 0;
    while j < bytes.len()
        invariant
            bytes@ == s.spec_bytes(),
            j <= bytes@.len(),
            forall|k: int| 0 <= k < j ==> bytes@[k] != 10u8,
        decreases bytes@.len() - j,
    {
        if bytes[j] == 10u8 {
            return Some(j);
        }
        j += 1;
    }
    None
}

/// The names of a word list: its text split at every newline, in order, the
/// last piece included (empty when the text ends with a newline).
pub fn split_names(text: &str) -> (r: Vec<String>)
    ensures
        r@.len() == lines_of(text.spec_bytes()).len(),
        forall|i: int|
            0 <= i < r@.len() ==> encode_utf8(#[trigger] r@[i]@) == lines_of(text.spec_bytes())[i],
{
    let mut out: Vec<String> = Vec::new();
    let mut rest: &str = text;
    let ghost mut done: Seq<Seq<u8>> = seq![];
    loop
        invariant
            out@.len() == done.len(),
            forall|i: int| 0 <= i < out@.len() ==> encode_utf8(#[trigger] out@[i]@) == done[i],
            lines_of(text.spec_bytes()) == done + lines_of(rest.spec_bytes()),
        decreases rest.spec_bytes().len(),
    {
        match find_newline(rest) {
            None => {
                proof {
                    lemma_lines_from_last(rest.spec_bytes(), seq![]);
                    assert(seq![] + rest.spec_bytes() =~= rest.spec_bytes());
                }
                let piece = rest.to_owned();
                out.push(piece);
                proof {
                    done = done.push(rest.spec_bytes());
                    assert(lines_of(text.spec_bytes()) =~= done);
                }
                return out;
            },
            Some(j) => {
                let ghost b = rest.spec_bytes();
                proof {
                    lemma_lines_from_newline(b, seq![], j as int);
                    assert(seq![] + b.subrange(0, j as int) =~= b.subrange(0, j as int));
                    assert(is_leading_byte_width_1(b[j as int]));
                    assert(is_char_boundary(b, j as int));
                }
                let (piece, tail) = rest.split_at(j);
                let ghost tb = tail.spec_bytes();
                proof {
                    assert(tb[0] == 10u8);
                    assert(is_leading_byte_width_1(tb[0]));
                    reveal_with_fuel(is_char_boundary, 2);
                    assert(is_char_boundary(tb, 1));
                }
                let (_, next) = tail.split_at(1);
                proof {
                    assert(next.spec_bytes() =~= b.subrange(j + 1, b.len() as int));
                    done = done.push(piece.spec_bytes());
                    assert(lines_of(text.spec_bytes()) =~= done + lines_of(next.spec_bytes()));
                }
                out.push(piece.to_owned());
                rest = next;
            },
        }
    }
}

} // verus!
