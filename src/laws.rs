//! Properties that relate the codec, the normalizer and the engine's operations.
use vstd::prelude::*;
use crate::engine::{add_spec, remove_spec};
use crate::header::{decode_spec, encode_spec, keep_all, keep_step, valid_name, valid_set};
use crate::normalize::{body_spec, normalize_spec, render_spec, select};
use crate::text::{back_ws, is_ws, line_end, line_state, lines, skip_ws, tok_state, tokens, trim, ws_free};

verus! {

proof fn lemma_tok_word(x: Seq<char>, w: Seq<char>)
    requires
        ws_free(w),
    ensures
        tok_state(x + w) == (tok_state(x).0, tok_state(x).1 + w),
    decreases w.len(),
{
    if w.len() == 0 {
        assert(x + w =~= x);
        assert(tok_state(x).1 + w =~= tok_state(x).1);
    } else {
        let w1 = w.drop_last();
        assert(ws_free(w1)) by {
            assert forall|k: int| 0 <= k < w1.len() implies !is_ws(#[trigger] w1[k]) by {
                assert(w1[k] == w[k]);
            }
        }
        lemma_tok_word(x, w1);
        assert((x + w).drop_last() =~= x + w1);
        assert((x + w).last() == w[w.len() - 1]);
        assert((tok_state(x).1 + w1).push(w.last()) =~= tok_state(x).1 + w);
    }
}

proof fn lemma_tok_space(x: Seq<char>)
    ensures
        tok_state(x.push(' ')) == (if tok_state(x).1.len() > 0 {
            (tok_state(x).0.push(tok_state(x).1), Seq::<char>::empty())
        } else {
            (tok_state(x).0, Seq::<char>::empty())
        }),
{
    assert(x.push(' ').drop_last() =~= x);
    if tok_state(x).1.len() == 0 {
        assert(tok_state(x).1 =~= Seq::<char>::empty());
    }
}

proof fn lemma_encode_shape(s: Seq<Seq<char>>)
    requires
        forall|i: int| 0 <= i < s.len() ==> valid_name(#[trigger] s[i]),
    ensures
        encode_spec(s).len() >= 1,
        encode_spec(s)[0] == '#',
        forall|k: int| 0 <= k < encode_spec(s).len() ==> #[trigger] encode_spec(s)[k] != '\n',
    decreases s.len(),
{
    if s.len() > 0 {
        let s1 = s.drop_last();
        assert forall|i: int| 0 <= i < s1.len() implies valid_name(#[trigger] s1[i]) by {
            assert(s1[i] == s[i]);
        }
        lemma_encode_shape(s1);
        let l = s.last();
        assert(valid_name(s[s.len() - 1]));
        let e = encode_spec(s);
        let e1 = encode_spec(s1);
        assert(e == e1 + seq![' '] + l);
        assert forall|k: int| 0 <= k < e.len() implies #[trigger] e[k] != '\n' by {
            if k < e1.len() {
                assert(e[k] == e1[k]);
            } else if k == e1.len() {
                assert(e[k] == ' ');
            } else {
                assert(e[k] == l[k - e1.len() - 1]);
                assert(!is_ws(l[k - e1.len() - 1]));
            }
        }
    }
}

proof fn lemma_encode_tokens(s: Seq<Seq<char>>)
    requires
        forall|i: int| 0 <= i < s.len() ==> valid_name(#[trigger] s[i]),
    ensures
        tok_state(encode_spec(s).drop_first()) == (if s.len() == 0 {
            (Seq::<Seq<char>>::empty(), Seq::<char>::empty())
        } else {
            (s.drop_last(), s.last())
        }),
        tokens(encode_spec(s).drop_first()) == s,
    decreases s.len(),
{
    lemma_encode_shape(s);
    if s.len() == 0 {
        assert(encode_spec(s).drop_first() =~= Seq::<char>::empty());
        assert(s =~= Seq::<Seq<char>>::empty());
    } else {
        let s1 = s.drop_last();
        assert forall|i: int| 0 <= i < s1.len() implies valid_name(#[trigger] s1[i]) by {
            assert(s1[i] == s[i]);
        }
        lemma_encode_tokens(s1);
        lemma_encode_shape(s1);
        let l = s.last();
        assert(valid_name(s[s.len() - 1]));
        let x = encode_spec(s1).drop_first();
        assert(encode_spec(s).drop_first() =~= x.push(' ') + l);
        lemma_tok_space(x);
        lemma_tok_word(x.push(' '), l);
        if s1.len() > 0 {
            assert(s1.drop_last().push(s1.last()) =~= s1);
        }
        assert(Seq::<char>::empty() + l =~= l);
        assert(s.drop_last().push(l) =~= s);
    }
}

proof fn lemma_line_end(s: Seq<char>, i: int, j: int)
    requires
        0 <= i <= j <= s.len(),
        forall|k: int| i <= k < j ==> s[k] != '\n',
        j == s.len() || s[j] == '\n',
    ensures
        line_end(s, i) == j,
    decreases j - i,
{
    if i < j {
        lemma_line_end(s, i + 1, j);
    }
}

proof fn lemma_keep_all_valid(s: Seq<Seq<char>>)
    requires
        valid_set(s),
    ensures
        keep_all(s) == s,
    decreases s.len(),
{
    if s.len() > 0 {
        let s1 = s.drop_last();
        assert forall|i: int| 0 <= i < s1.len() implies valid_name(#[trigger] s1[i]) by {
            assert(s1[i] == s[i]);
        }
        assert(s1.no_duplicates()) by {
            assert forall|i: int, j: int| 0 <= i < s1.len() && 0 <= j < s1.len() && i != j
                implies s1[i] != s1[j] by {
                assert(s1[i] == s[i] && s1[j] == s[j]);
            }
        }
        lemma_keep_all_valid(s1);
        assert(valid_name(s[s.len() - 1]));
        assert(!s1.contains(s.last())) by {
            if s1.contains(s.last()) {
                let k = choose|k: int| 0 <= k < s1.len() && s1[k] == s.last();
                assert(s[k] == s[s.len() - 1]);
            }
        }
        assert(s1.push(s.last()) =~= s);
    }
}

/// The header and the file contents it starts decode to the active set it was
/// encoded from, when that set holds valid, unique names.
proof fn lemma_decode_prefix(s: Seq<Seq<char>>, tail: Seq<char>)
    requires
        valid_set(s),
        tail.len() == 0 || tail[0] == '\n',
    ensures
        decode_spec(encode_spec(s) + tail) == s,
{
    lemma_encode_shape(s);
    let e = encode_spec(s);
    let c = e + tail;
    assert(c[0] == '#');
    assert forall|k: int| 1 <= k < e.len() implies c[k] != '\n' by {
        assert(c[k] == e[k]);
    }
    lemma_line_end(c, 1, e.len() as int);
    assert(c.subrange(1, e.len() as int) =~= e.drop_first());
    lemma_encode_tokens(s);
    lemma_keep_all_valid(s);
}

/// Decoding an encoded header gives back the active set, for every set of unique,
/// non-empty names without whitespace that do not start with `#`.
pub proof fn lemma_header_round_trip(s: Seq<Seq<char>>)
    requires
        valid_set(s),
    ensures
        decode_spec(encode_spec(s)) == s,
{
    lemma_decode_prefix(s, Seq::empty());
    assert(encode_spec(s) + Seq::<char>::empty() =~= encode_spec(s));
}

/// The header of a regenerated managed file decodes to the set it was made from.
pub proof fn lemma_decode_rendered(s: Seq<Seq<char>>, raw: Seq<char>)
    requires
        valid_set(s),
    ensures
        decode_spec(render_spec(s, raw)) == s,
{
    let tail = seq!['\n'] + body_spec(normalize_spec(raw));
    assert(render_spec(s, raw) =~= encode_spec(s) + tail);
    lemma_decode_prefix(s, tail);
}

proof fn lemma_tok_state_valid(x: Seq<char>)
    ensures
        forall|i: int|
            0 <= i < tok_state(x).0.len() ==> #[trigger] tok_state(x).0[i].len() > 0 && ws_free(
                tok_state(x).0[i],
            ),
        ws_free(tok_state(x).1),
    decreases x.len(),
{
    if x.len() > 0 {
        lemma_tok_state_valid(x.drop_last());
        let (d, cur) = tok_state(x.drop_last());
        let c = x.last();
        if !is_ws(c) {
            assert forall|k: int| 0 <= k < cur.push(c).len() implies !is_ws(
                #[trigger] cur.push(c)[k],
            ) by {
                if k < cur.len() {
                    assert(cur.push(c)[k] == cur[k]);
                }
            }
        } else if cur.len() > 0 {
            assert forall|i: int| 0 <= i < d.push(cur).len() implies #[trigger] d.push(cur)[i].len()
                > 0 && ws_free(d.push(cur)[i]) by {
                if i < d.len() {
                    assert(d.push(cur)[i] == d[i]);
                }
            }
        }
    }
}

proof fn lemma_tokens_valid(x: Seq<char>)
    ensures
        forall|i: int| 0 <= i < tokens(x).len() ==> ws_free(#[trigger] tokens(x)[i]),
{
    lemma_tok_state_valid(x);
    let (d, cur) = tok_state(x);
    if cur.len() > 0 {
        assert forall|i: int| 0 <= i < d.push(cur).len() implies ws_free(#[trigger] d.push(cur)[i]) by {
            if i < d.len() {
                assert(d.push(cur)[i] == d[i]);
            }
        }
    }
}

proof fn lemma_keep_all_of_free(ls: Seq<Seq<char>>)
    requires
        forall|i: int| 0 <= i < ls.len() ==> ws_free(#[trigger] ls[i]),
    ensures
        valid_set(keep_all(ls)),
    decreases ls.len(),
{
    if ls.len() > 0 {
        let l1 = ls.drop_last();
        assert forall|i: int| 0 <= i < l1.len() implies ws_free(#[trigger] l1[i]) by {
            assert(l1[i] == ls[i]);
        }
        lemma_keep_all_of_free(l1);
        let k = keep_all(l1);
        let t = ls.last();
        assert(ws_free(ls[ls.len() - 1]));
        if t.len() > 0 && t[0] != '#' && !k.contains(t) {
            let k2 = k.push(t);
            assert(keep_step(k, t) == k2);
            assert forall|i: int| 0 <= i < k2.len() implies valid_name(#[trigger] k2[i]) by {
                if i < k.len() {
                    assert(k2[i] == k[i]);
                }
            }
            assert forall|i: int, j: int| 0 <= i < k2.len() && 0 <= j < k2.len() && i != j
                implies k2[i] != k2[j] by {
                if i == k.len() {
                    assert(k2[j] == k[j]);
                } else if j == k.len() {
                    assert(k2[i] == k[i]);
                } else {
                    assert(k2[i] == k[i] && k2[j] == k[j]);
                }
            }
        }
    }
}

/// Whatever file contents it is read from, the active set holds valid, unique names.
pub proof fn lemma_decode_valid(c: Seq<char>)
    ensures
        valid_set(decode_spec(c)),
{
    if c.len() > 0 && c[0] == '#' {
        lemma_tokens_valid(c.subrange(1, line_end(c, 1)));
        lemma_keep_all_of_free(tokens(c.subrange(1, line_end(c, 1))));
    } else {
        lemma_tokens_valid(c);
        lemma_keep_all_of_free(tokens(c));
    }
}

/// Regenerating a managed file twice, with a resolver that gives the same text for
/// the same names, gives the same content both times: the second run reads back the
/// set that the first one wrote.
pub proof fn lemma_update_idempotent(c0: Seq<char>, resolve: spec_fn(Seq<Seq<char>>) -> Seq<char>)
    ensures
        decode_spec(render_spec(decode_spec(c0), resolve(decode_spec(c0)))) == decode_spec(c0),
        ({
            let c1 = render_spec(decode_spec(c0), resolve(decode_spec(c0)));
            render_spec(decode_spec(c1), resolve(decode_spec(c1))) == c1
        }),
{
    lemma_decode_valid(c0);
    lemma_decode_rendered(decode_spec(c0), resolve(decode_spec(c0)));
}

/// Adding names that are all active already leaves the active set unchanged.
pub proof fn lemma_add_present(s: Seq<Seq<char>>, ns: Seq<Seq<char>>)
    requires
        forall|i: int| 0 <= i < ns.len() ==> s.contains(#[trigger] ns[i]),
    ensures
        add_spec(s, ns) == s,
    decreases ns.len(),
{
    if ns.len() > 0 {
        let n1 = ns.drop_last();
        assert forall|i: int| 0 <= i < n1.len() implies s.contains(#[trigger] n1[i]) by {
            assert(n1[i] == ns[i]);
        }
        lemma_add_present(s, n1);
        assert(s.contains(ns[ns.len() - 1]));
    }
}

/// Adding behaves as a union that keeps order: the result holds exactly the names of
/// the active set and of the added ones, starts with the active set, and has no
/// repeats when the active set had none.
pub proof fn lemma_add_union(s: Seq<Seq<char>>, ns: Seq<Seq<char>>)
    ensures
        forall|x: Seq<char>| #[trigger] add_spec(s, ns).contains(x) <==> (s.contains(x) || ns.contains(x)),
        add_spec(s, ns).len() >= s.len(),
        add_spec(s, ns).subrange(0, s.len() as int) == s,
        s.no_duplicates() ==> add_spec(s, ns).no_duplicates(),
    decreases ns.len(),
{
    if ns.len() == 0 {
        assert(s.subrange(0, s.len() as int) =~= s);
    } else {
        let n1 = ns.drop_last();
        let l = ns.last();
        lemma_add_union(s, n1);
        let t = add_spec(s, n1);
        assert forall|x: Seq<char>| ns.contains(x) <==> (n1.contains(x) || x == l) by {
            if ns.contains(x) {
                let k = choose|k: int| 0 <= k < ns.len() && ns[k] == x;
                if k < n1.len() {
                    assert(n1[k] == x);
                }
            }
            if n1.contains(x) {
                let k = choose|k: int| 0 <= k < n1.len() && n1[k] == x;
                assert(ns[k] == x);
            }
            if x == l {
                assert(ns[ns.len() - 1] == x);
            }
        }
        if !t.contains(l) {
            let t2 = t.push(l);
            assert forall|x: Seq<char>| t2.contains(x) <==> (t.contains(x) || x == l) by {
                if t2.contains(x) {
                    let k = choose|k: int| 0 <= k < t2.len() && t2[k] == x;
                    if k < t.len() {
                        assert(t[k] == x);
                    }
                }
                if t.contains(x) {
                    let k = choose|k: int| 0 <= k < t.len() && t[k] == x;
                    assert(t2[k] == x);
                }
                if x == l {
                    assert(t2[t.len() as int] == x);
                }
            }
            assert(t2.subrange(0, s.len() as int) =~= t.subrange(0, s.len() as int));
            if t.no_duplicates() {
                assert forall|i: int, j: int| 0 <= i < t2.len() && 0 <= j < t2.len() && i != j
                    implies t2[i] != t2[j] by {
                    if i == t.len() {
                        assert(t2[j] == t[j]);
                    } else if j == t.len() {
                        assert(t2[i] == t[i]);
                    } else {
                        assert(t2[i] == t[i] && t2[j] == t[j]);
                    }
                }
            }
        }
    }
}

/// Deleting names none of which is active leaves the active set unchanged.
pub proof fn lemma_remove_absent(s: Seq<Seq<char>>, ns: Seq<Seq<char>>)
    requires
        forall|i: int| 0 <= i < ns.len() ==> !s.contains(#[trigger] ns[i]),
    ensures
        remove_spec(s, ns) == s,
    decreases s.len(),
{
    if s.len() > 0 {
        let s1 = s.drop_last();
        assert forall|i: int| 0 <= i < ns.len() implies !s1.contains(#[trigger] ns[i]) by {
            if s1.contains(ns[i]) {
                let k = choose|k: int| 0 <= k < s1.len() && s1[k] == ns[i];
                assert(s[k] == ns[i]);
            }
        }
        lemma_remove_absent(s1, ns);
        assert(!ns.contains(s.last())) by {
            if ns.contains(s.last()) {
                let k = choose|k: int| 0 <= k < ns.len() && ns[k] == s.last();
                assert(s[s.len() - 1] == ns[k]);
            }
        }
        assert(s1.push(s.last()) =~= s);
    }
}

/// Whether `s` holds no line feed.
pub open spec fn nl_free(s: Seq<char>) -> bool {
    forall|k: int| 0 <= k < s.len() ==> #[trigger] s[k] != '\n'
}

/// A pattern line as the normalizer emits it: non-empty, not a comment, without a
/// line feed, and without whitespace at either end.
pub open spec fn clean_line(t: Seq<char>) -> bool {
    t.len() > 0 && t[0] != '#' && !is_ws(t[0]) && !is_ws(t[t.len() - 1]) && nl_free(t)
}

proof fn lemma_skip_ws(s: Seq<char>, i: int)
    requires
        0 <= i <= s.len(),
    ensures
        i <= skip_ws(s, i) <= s.len(),
        skip_ws(s, i) < s.len() ==> !is_ws(s[skip_ws(s, i)]),
    decreases s.len() - i,
{
    if i < s.len() && is_ws(s[i]) {
        lemma_skip_ws(s, i + 1);
    }
}

proof fn lemma_back_ws(s: Seq<char>, j: int)
    requires
        0 <= j <= s.len(),
    ensures
        0 <= back_ws(s, j) <= j,
        back_ws(s, j) > 0 ==> !is_ws(s[back_ws(s, j) - 1]),
    decreases j,
{
    if 0 < j && is_ws(s[j - 1]) {
        lemma_back_ws(s, j - 1);
    }
}

proof fn lemma_trim_clean(x: Seq<char>)
    requires
        nl_free(x),
    ensures
        trim(x).len() > 0 && trim(x)[0] != '#' ==> clean_line(trim(x)),
        nl_free(trim(x)),
{
    lemma_skip_ws(x, 0);
    lemma_back_ws(x, x.len() as int);
    let a = skip_ws(x, 0);
    let b = back_ws(x, x.len() as int);
    if a < b {
        let t = x.subrange(a, b);
        assert(t[0] == x[a]);
        assert(t[t.len() - 1] == x[b - 1]);
        assert forall|k: int| 0 <= k < t.len() implies #[trigger] t[k] != '\n' by {
            assert(t[k] == x[a + k]);
        }
    }
}

proof fn lemma_trim_of_clean(t: Seq<char>)
    requires
        clean_line(t),
    ensures
        trim(t) == t,
{
    assert(skip_ws(t, 0) == 0);
    assert(back_ws(t, t.len() as int) == t.len());
    assert(t.subrange(0, t.len() as int) =~= t);
}

proof fn lemma_line_state_nl_free(x: Seq<char>)
    ensures
        forall|i: int| 0 <= i < line_state(x).0.len() ==> nl_free(#[trigger] line_state(x).0[i]),
        nl_free(line_state(x).1),
    decreases x.len(),
{
    if x.len() > 0 {
        lemma_line_state_nl_free(x.drop_last());
        let (d, cur) = line_state(x.drop_last());
        let c = x.last();
        if c == '\n' {
            assert forall|i: int| 0 <= i < d.push(cur).len() implies nl_free(#[trigger] d.push(cur)[i]) by {
                if i < d.len() {
                    assert(d.push(cur)[i] == d[i]);
                }
            }
            assert(nl_free(Seq::<char>::empty()));
        } else {
            assert forall|k: int| 0 <= k < cur.push(c).len() implies #[trigger] cur.push(c)[k] != '\n' by {
                if k < cur.len() {
                    assert(cur.push(c)[k] == cur[k]);
                }
            }
        }
    }
}

proof fn lemma_select_clean(ls: Seq<Seq<char>>)
    requires
        forall|i: int| 0 <= i < ls.len() ==> nl_free(#[trigger] ls[i]),
    ensures
        forall|i: int| 0 <= i < select(ls).len() ==> clean_line(#[trigger] select(ls)[i]),
        select(ls).no_duplicates(),
    decreases ls.len(),
{
    if ls.len() > 0 {
        let l1 = ls.drop_last();
        assert forall|i: int| 0 <= i < l1.len() implies nl_free(#[trigger] l1[i]) by {
            assert(l1[i] == ls[i]);
        }
        lemma_select_clean(l1);
        let k = select(l1);
        let t = trim(ls.last());
        assert(nl_free(ls[ls.len() - 1]));
        lemma_trim_clean(ls.last());
        if t.len() > 0 && t[0] != '#' && !k.contains(t) {
            let k2 = k.push(t);
            assert(keep_step(k, t) == k2);
            assert forall|i: int| 0 <= i < k2.len() implies clean_line(#[trigger] k2[i]) by {
                if i < k.len() {
                    assert(k2[i] == k[i]);
                }
            }
            assert forall|i: int, j: int| 0 <= i < k2.len() && 0 <= j < k2.len() && i != j
                implies k2[i] != k2[j] by {
                if i == k.len() {
                    assert(k2[j] == k[j]);
                } else if j == k.len() {
                    assert(k2[i] == k[i]);
                } else {
                    assert(k2[i] == k[i] && k2[j] == k[j]);
                }
            }
        }
    }
}

proof fn lemma_line_word(x: Seq<char>, w: Seq<char>)
    requires
        nl_free(w),
    ensures
        line_state(x + w) == (line_state(x).0, line_state(x).1 + w),
    decreases w.len(),
{
    if w.len() == 0 {
        assert(x + w =~= x);
        assert(line_state(x).1 + w =~= line_state(x).1);
    } else {
        let w1 = w.drop_last();
        assert(nl_free(w1)) by {
            assert forall|k: int| 0 <= k < w1.len() implies #[trigger] w1[k] != '\n' by {
                assert(w1[k] == w[k]);
            }
        }
        lemma_line_word(x, w1);
        assert((x + w).drop_last() =~= x + w1);
        assert((x + w).last() == w[w.len() - 1]);
        assert((line_state(x).1 + w1).push(w.last()) =~= line_state(x).1 + w);
    }
}

proof fn lemma_body_lines(ls: Seq<Seq<char>>)
    requires
        forall|i: int| 0 <= i < ls.len() ==> nl_free(#[trigger] ls[i]),
    ensures
        line_state(body_spec(ls)) == (ls, Seq::<char>::empty()),
    decreases ls.len(),
{
    if ls.len() == 0 {
        assert(ls =~= Seq::<Seq<char>>::empty());
    } else {
        let l1 = ls.drop_last();
        let l = ls.last();
        assert forall|i: int| 0 <= i < l1.len() implies nl_free(#[trigger] l1[i]) by {
            assert(l1[i] == ls[i]);
        }
        assert(nl_free(ls[ls.len() - 1]));
        lemma_body_lines(l1);
        let x = body_spec(l1);
        lemma_line_word(x, l);
        assert(body_spec(ls) == (x + l).push('\n')) by {
            assert(x + l + seq!['\n'] =~= (x + l).push('\n'));
        }
        assert((x + l).push('\n').drop_last() =~= x + l);
        assert(Seq::<char>::empty() + l =~= l);
        assert(l1.push(l) =~= ls);
    }
}

proof fn lemma_select_of_clean(ls: Seq<Seq<char>>)
    requires
        forall|i: int| 0 <= i < ls.len() ==> clean_line(#[trigger] ls[i]),
        ls.no_duplicates(),
    ensures
        select(ls) == ls,
    decreases ls.len(),
{
    if ls.len() > 0 {
        let l1 = ls.drop_last();
        assert forall|i: int| 0 <= i < l1.len() implies clean_line(#[trigger] l1[i]) by {
            assert(l1[i] == ls[i]);
        }
        assert(l1.no_duplicates()) by {
            assert forall|i: int, j: int| 0 <= i < l1.len() && 0 <= j < l1.len() && i != j
                implies l1[i] != l1[j] by {
                assert(l1[i] == ls[i] && l1[j] == ls[j]);
            }
        }
        lemma_select_of_clean(l1);
        assert(clean_line(ls[ls.len() - 1]));
        lemma_trim_of_clean(ls.last());
        assert(!l1.contains(ls.last())) by {
            if l1.contains(ls.last()) {
                let k = choose|k: int| 0 <= k < l1.len() && l1[k] == ls.last();
                assert(ls[k] == ls[ls.len() - 1]);
            }
        }
        assert(l1.push(ls.last()) =~= ls);
    }
}

/// Normalizing the body that the normalizer's own output makes changes nothing.
pub proof fn lemma_normalize_stable(raw: Seq<char>)
    ensures
        normalize_spec(body_spec(normalize_spec(raw))) == normalize_spec(raw),
{
    let n = normalize_spec(raw);
    let (d, cur) = line_state(raw);
    lemma_line_state_nl_free(raw);
    assert forall|i: int| 0 <= i < d.push(cur).len() implies nl_free(#[trigger] d.push(cur)[i]) by {
        if i < d.len() {
            assert(d.push(cur)[i] == d[i]);
        }
    }
    assert(lines(raw) == d.push(cur));
    lemma_select_clean(lines(raw));
    assert forall|i: int| 0 <= i < n.len() implies nl_free(#[trigger] n[i]) by {
        assert(clean_line(n[i]));
    }
    lemma_body_lines(n);
    let e = Seq::<char>::empty();
    assert(lines(body_spec(n)) == n.push(e));
    assert(n.push(e).drop_last() =~= n);
    assert(trim(e) =~= e);
    lemma_select_of_clean(n);
}

} // verus!
