//! The header line of the managed file: the ordered list of active template names.
use vstd::prelude::*;
use crate::text::{contains, line_end, texts, tokens, tokens_of, ws_free};

verus! {

/// One step of the first-wins filter: `t` is appended when it is non-empty, does not
/// start with `#` and is not already in `out`.
pub open spec fn keep_step(out: Seq<Seq<char>>, t: Seq<char>) -> Seq<Seq<char>> {
    if t.len() > 0 && t[0] != '#' && !out.contains(t) {
        out.push(t)
    } else {
        out
    }
}

/// The entries of `ls` that are non-empty and do not start with `#`, each kept
/// at its first occurrence only.
pub open spec fn keep_all(ls: Seq<Seq<char>>) -> Seq<Seq<char>>
    decreases ls.len(),
{
    if ls.len() == 0 {
        Seq::empty()
    } else {
        keep_step(keep_all(ls.drop_last()), ls.last())
    }
}

/// A name that a header can hold: non-empty, without whitespace, not starting with `#`.
pub open spec fn valid_name(t: Seq<char>) -> bool {
    t.len() > 0 && t[0] != '#' && ws_free(t)
}

/// An active template set that the header records exactly: valid, unique names.
pub open spec fn valid_set(s: Seq<Seq<char>>) -> bool {
    (forall|i: int| 0 <= i < s.len() ==> valid_name(#[trigger] s[i])) && s.no_duplicates()
}

/// `"#"` followed by `" " + name` for each name, in order.
pub open spec fn encode_spec(s: Seq<Seq<char>>) -> Seq<char>
    decreases s.len(),
{
    if s.len() == 0 {
        seq!['#']
    } else {
        encode_spec(s.drop_last()) + seq![' '] + s.last()
    }
}

/// The active template set recorded in file contents `c`: the tokens after the
/// leading `#` of the first line, or of the whole text when it does not start with
/// `#`, without those starting with `#` and without repeats.
pub open spec fn decode_spec(c: Seq<char>) -> Seq<Seq<char>> {
    if c.len() > 0 && c[0] == '#' {
        keep_all(tokens(c.subrange(1, line_end(c, 1))))
    } else {
        keep_all(tokens(c))
    }
}

/// Appends `t` to `out` when the first-wins filter keeps it.
pub fn push_kept(out: &mut Vec<String>, t: String)
    ensures
        texts(final(out)@) == keep_step(texts(old(out)@), t@),
{
    if t.as_str().unicode_len() > 0 && t.as_str().get_char(0) != '#' && !contains(out, &t) {
        proof {
            assert(texts(out@.push(t)) =~= texts(out@).push(t@));
        }
        out.push(t);
    }
}

/// The entries of `ls` that are non-empty and do not start with `#`, without repeats.
pub fn keep_all_of(ls: &Vec<String>) -> (r: Vec<String>)
    ensures
        texts(r@) == keep_all(texts(ls@)),
{
    let mut out: Vec<String> = Vec::new();
    let mut i: usize = 0;
    while i < ls.len()
        invariant
            i <= ls.len(),
            texts(out@) == keep_all(texts(ls@).take(i as int)),
        decreases ls.len() - i,
    {
        assert(texts(ls@).take(i + 1).drop_last() =~= texts(ls@).take(i as int));
        push_kept(&mut out, ls[i].clone());
        i = i + 1;
    }
    assert(texts(ls@).take(ls.len() as int) =~= texts(ls@));
    out
}

/// The header line for the active templates `templates`.
pub fn encode(templates: &Vec<String>) -> (r: String)
    ensures
        r@ == encode_spec(texts(templates@)),
{
    let mut head = String::from_str("#");
    proof {
        reveal_strlit("#");
        reveal_strlit(" ");
        assert(texts(templates@).take(0) =~= Seq::<Seq<char>>::empty());
    }
    let mut i: usize = 0;
    while i < templates.len()
        invariant
            i <= templates.len(),
            head@ == encode_spec(texts(templates@).take(i as int)),
        decreases templates.len() - i,
    {
        proof {
            reveal_strlit(" ");
            assert(texts(templates@).take(i + 1).drop_last() =~= texts(templates@).take(i as int));
            assert(texts(templates@).take(i + 1).last() == templates@[i as int]@);
        }
        head.append(" ");
        head.append(templates[i].as_str());
        i = i + 1;
    }
    assert(texts(templates@).take(templates.len() as int) =~= texts(templates@));
    head
}

/// The active template set recorded in the file contents `content`.
pub fn decode(content: &str) -> (r: Vec<String>)
    ensures
        texts(r@) == decode_spec(content@),
{
    let n = content.unicode_len();
    if n > 0 && content.get_char(0) == '#' {
        let mut e: usize = 1;
        while e < n && content.get_char(e) != '\n'
            invariant
                1 <= e <= n,
                n == content@.len(),
                line_end(content@, e as int) == line_end(content@, 1),
            decreases n - e,
        {
            e = e + 1;
        }
        let toks = tokens_of(content.substring_char(1, e));
        keep_all_of(&toks)
    } else {
        let toks = tokens_of(content);
        keep_all_of(&toks)
    }
}

} // verus!
