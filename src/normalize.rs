//! Pattern lines: from raw template text to the deduplicated body of the managed file.
use vstd::prelude::*;
use crate::header::{encode_spec, keep_step, push_kept};
use crate::text::{line_state, lines, texts, trim, trim_str};

verus! {

/// The trimmed entries of `ls` passed through the first-wins filter.
pub open spec fn select(ls: Seq<Seq<char>>) -> Seq<Seq<char>>
    decreases ls.len(),
{
    if ls.len() == 0 {
        Seq::empty()
    } else {
        keep_step(select(ls.drop_last()), trim(ls.last()))
    }
}

/// The pattern lines of raw template text: each line trimmed, empty lines and
/// lines starting with `#` dropped, and every line kept at its first occurrence only.
pub open spec fn normalize_spec(raw: Seq<char>) -> Seq<Seq<char>> {
    select(lines(raw))
}

/// Each pattern line followed by a line feed.
pub open spec fn body_spec(ls: Seq<Seq<char>>) -> Seq<char>
    decreases ls.len(),
{
    if ls.len() == 0 {
        Seq::empty()
    } else {
        body_spec(ls.drop_last()) + ls.last() + seq!['\n']
    }
}

/// The whole managed file for the active set `s`, given the raw text that the
/// templates of `s` resolve to: header, line feed, body.
pub open spec fn render_spec(s: Seq<Seq<char>>, raw: Seq<char>) -> Seq<char> {
    encode_spec(s) + seq!['\n'] + body_spec(normalize_spec(raw))
}

/// The pattern lines of the raw template text `raw`.
pub fn normalize(raw: &str) -> (r: Vec<String>)
    ensures
        texts(r@) == normalize_spec(raw@),
{
    let n = raw.unicode_len();
    let mut out: Vec<String> = Vec::new();
    let mut start: usize = 0;
    let mut i: usize = 0;
    while i < n
        invariant
            n == raw@.len(),
            start <= i <= n,
            texts(out@) == select(line_state(raw@.take(i as int)).0),
            line_state(raw@.take(i as int)).1 == raw@.subrange(start as int, i as int),
        decreases n - i,
    {
        let c = raw.get_char(i);
        let ghost done = line_state(raw@.take(i as int)).0;
        assert(raw@.take(i + 1).drop_last() =~= raw@.take(i as int));
        if c == '\n' {
            let t = trim_str(raw.substring_char(start, i));
            push_kept(&mut out, t);
            assert(done.push(raw@.subrange(start as int, i as int)).drop_last() =~= done);
            start = i + 1;
            assert(raw@.subrange(start as int, i + 1) =~= Seq::<char>::empty());
        } else {
            assert(raw@.subrange(start as int, i + 1) =~= raw@.subrange(start as int, i as int).push(c));
        }
        i = i + 1;
    }
    assert(raw@.take(n as int) =~= raw@);
    let ghost done = line_state(raw@).0;
    assert(done.push(raw@.subrange(start as int, n as int)).drop_last() =~= done);
    let t = trim_str(raw.substring_char(start, n));
    push_kept(&mut out, t);
    out
}

/// The body of the managed file: each pattern line followed by a line feed.
pub fn body_of(ls: &Vec<String>) -> (r: String)
    ensures
        r@ == body_spec(texts(ls@)),
{
    let mut body = String::new();
    assert(texts(ls@).take(0) =~= Seq::<Seq<char>>::empty());
    let mut i: usize = 0;
    while i < ls.len()
        invariant
            i <= ls.len(),
            body@ == body_spec(texts(ls@).take(i as int)),
        decreases ls.len() - i,
    {
        proof {
            reveal_strlit("\n");
            assert(texts(ls@).take(i + 1).drop_last() =~= texts(ls@).take(i as int));
            assert(texts(ls@).take(i + 1).last() == ls@[i as int]@);
        }
        body.append(ls[i].as_str());
        body.append("\n");
        i = i + 1;
    }
    assert(texts(ls@).take(ls.len() as int) =~= texts(ls@));
    body
}

} // verus!
