//! The field tokenizer: splits a wire string on `;` and each segment on its
//! first `=` into an ordered sequence of raw key/value pairs.

use vstd::prelude::*;

verus! {

/// No occurrence of `d` anywhere in `s`.
pub open spec fn no_char(s: Seq<char>, d: char) -> bool {
    forall|i: int| 0 <= i < s.len() ==> #[trigger] s[i] != d
}

/// Index of the first occurrence of `d` in `s`, or -1 if there is none.
pub open spec fn find_char(s: Seq<char>, d: char) -> int
    decreases s.len(),
{
    if s.len() == 0 {
        -1
    } else if s[0] == d {
        0
    } else {
        let r = find_char(s.drop_first(), d);
        if r < 0 {
            -1
        } else {
            r + 1
        }
    }
}

pub proof fn lemma_find_char(s: Seq<char>, d: char)
    ensures
        find_char(s, d) == -1 <==> no_char(s, d),
        find_char(s, d) != -1 ==> 0 <= find_char(s, d) < s.len() && s[find_char(s, d)] == d
            && no_char(s.subrange(0, find_char(s, d)), d),
    decreases s.len(),
{
    if s.len() > 0 && s[0] == d {
        assert(!no_char(s, d)) by {
            assert(s[0] == d);
        }
        assert(no_char(s.subrange(0, 0), d));
    } else if s.len() > 0 {
        let t = s.drop_first();
        lemma_find_char(t, d);
        let r = find_char(t, d);
        if r < 0 {
            assert forall|i: int| 0 <= i < s.len() implies #[trigger] s[i] != d by {
                if i > 0 {
                    assert(s[i] == t[i - 1]);
                }
            }
        } else {
            assert(!no_char(s, d)) by {
                assert(s[r + 1] == t[r]);
            }
            assert(s[r + 1] == t[r]);
            let pre = s.subrange(0, r + 1);
            let pre0 = t.subrange(0, r);
            assert forall|i: int| 0 <= i < pre.len() implies #[trigger] pre[i] != d by {
                if i > 0 {
                    assert(pre[i] == pre0[i - 1]);
                }
            }
        }
    }
}

/// Splitting on a delimiter, as Rust's `split` does: always at least one
/// part, empty parts kept.
pub open spec fn split_char(s: Seq<char>, d: char) -> Seq<Seq<char>>
    decreases s.len(),
{
    if s.len() == 0 {
        seq![s]
    } else if s[0] == d {
        seq![Seq::<char>::empty()] + split_char(s.drop_first(), d)
    } else {
        let r = split_char(s.drop_first(), d);
        seq![seq![s[0]] + r[0]] + r.drop_first()
    }
}

pub proof fn lemma_split_char_nonempty(s: Seq<char>, d: char)
    ensures
        split_char(s, d).len() >= 1,
    decreases s.len(),
{
    if s.len() > 0 {
        lemma_split_char_nonempty(s.drop_first(), d);
    }
}

/// Splitting as Rust's `split_terminator` does: like `split`, but an empty
/// string yields no parts and one trailing empty part is dropped.
pub open spec fn split_terminator_spec(s: Seq<char>, d: char) -> Seq<Seq<char>> {
    if s.len() == 0 {
        Seq::empty()
    } else {
        let parts = split_char(s, d);
        if parts.last().len() == 0 {
            parts.drop_last()
        } else {
            parts
        }
    }
}

/// A delimiter-free string is one whole part.
pub proof fn lemma_split_char_whole(s: Seq<char>, d: char)
    requires
        no_char(s, d),
    ensures
        split_char(s, d) =~= seq![s],
    decreases s.len(),
{
    if s.len() > 0 {
        assert(no_char(s.drop_first(), d)) by {
            assert(forall|i: int|
                0 <= i < s.drop_first().len() ==> #[trigger] s.drop_first()[i] == s[i + 1]);
        }
        lemma_split_char_whole(s.drop_first(), d);
        assert(seq![s[0]] + s.drop_first() =~= s);
    }
}

/// Splitting at the first delimiter: a delimiter-free prefix becomes one part
/// and the rest is split on its own.
pub proof fn lemma_split_char_sep(pre: Seq<char>, suf: Seq<char>, d: char)
    requires
        no_char(pre, d),
    ensures
        split_char(pre + seq![d] + suf, d) =~= seq![pre] + split_char(suf, d),
    decreases pre.len(),
{
    let s = pre + seq![d] + suf;
    if pre.len() == 0 {
        assert(s.drop_first() =~= suf);
        assert(s[0] == d);
        assert(pre =~= Seq::<char>::empty());
        assert(split_char(s, d) =~= seq![pre] + split_char(suf, d));
    } else {
        assert(s[0] == pre[0]);
        assert(s[0] != d);
        let pre1 = pre.drop_first();
        assert(no_char(pre1, d)) by {
            assert(forall|i: int| 0 <= i < pre1.len() ==> #[trigger] pre1[i] == pre[i + 1]);
        }
        lemma_split_char_sep(pre1, suf, d);
        assert(s.drop_first() =~= pre1 + seq![d] + suf);
        lemma_split_char_nonempty(suf, d);
        let r = split_char(s.drop_first(), d);
        assert(r =~= seq![pre1] + split_char(suf, d));
        assert(seq![s[0]] + r[0] =~= pre);
        assert(r.drop_first() =~= split_char(suf, d));
        assert(split_char(s, d) =~= seq![seq![s[0]] + r[0]] + r.drop_first());
        assert(split_char(s, d) =~= seq![pre] + split_char(suf, d));
    }
}

/// The same step for `split_terminator_spec`.
pub proof fn lemma_split_term_sep(pre: Seq<char>, suf: Seq<char>, d: char)
    requires
        no_char(pre, d),
    ensures
        split_terminator_spec(pre + seq![d] + suf, d) =~= seq![pre] + split_terminator_spec(
            suf,
            d,
        ),
    decreases suf.len(),
{
    let s = pre + seq![d] + suf;
    lemma_split_char_sep(pre, suf, d);
    lemma_split_char_nonempty(suf, d);
    let parts = split_char(s, d);
    let sufparts = split_char(suf, d);
    assert(parts.last() == sufparts.last());
    if suf.len() == 0 {
        assert(sufparts =~= seq![suf]);
        assert(parts.drop_last() =~= seq![pre]);
    } else {
        if sufparts.last().len() == 0 {
            assert(parts.drop_last() =~= seq![pre] + sufparts.drop_last());
        }
    }
}

/// A delimiter-free non-empty string is one whole part for
/// `split_terminator_spec` too.
pub proof fn lemma_split_term_whole(s: Seq<char>, d: char)
    requires
        no_char(s, d),
        s.len() > 0,
    ensures
        split_terminator_spec(s, d) =~= seq![s],
{
    lemma_split_char_whole(s, d);
}

/// Segments joined by a delimiter.
pub open spec fn join_char(segs: Seq<Seq<char>>, d: char) -> Seq<char>
    decreases segs.len(),
{
    if segs.len() == 0 {
        Seq::empty()
    } else if segs.len() == 1 {
        segs[0]
    } else {
        segs[0] + seq![d] + join_char(segs.drop_first(), d)
    }
}

/// Joining then splitting is the identity on delimiter-free segment lists
/// whose last segment is non-empty.
pub proof fn lemma_split_term_join(segs: Seq<Seq<char>>, d: char)
    requires
        segs.len() > 0,
        forall|i: int| 0 <= i < segs.len() ==> no_char(#[trigger] segs[i], d),
        segs.last().len() > 0,
    ensures
        split_terminator_spec(join_char(segs, d), d) =~= segs,
    decreases segs.len(),
{
    if segs.len() == 1 {
        lemma_split_term_whole(segs[0], d);
        assert(join_char(segs, d) == segs[0]);
    } else {
        let rest = segs.drop_first();
        assert(rest.last() == segs.last());
        assert(forall|i: int| 0 <= i < rest.len() ==> #[trigger] rest[i] == segs[i + 1]);
        lemma_split_term_join(rest, d);
        lemma_split_term_sep(segs[0], join_char(rest, d), d);
    }
}

/// Appending one more segment to a join.
pub proof fn lemma_join_push(a: Seq<Seq<char>>, x: Seq<char>, d: char)
    requires
        a.len() > 0,
    ensures
        join_char(a.push(x), d) =~= join_char(a, d) + seq![d] + x,
    decreases a.len(),
{
    if a.len() == 1 {
        assert(a.push(x).drop_first() =~= seq![x]);
        assert(join_char(seq![x], d) == x);
        assert(a.push(x)[0] == a[0]);
    } else {
        lemma_join_push(a.drop_first(), x, d);
        assert(a.push(x).drop_first() =~= a.drop_first().push(x));
        assert(a.push(x)[0] == a[0]);
    }
}

/// Joins rendered segments with a delimiter.
pub fn join_strings(parts: &Vec<String>, d: char) -> (r: String)
    ensures
        r@ == join_char(parts.deep_view(), d),
{
    let mut out = String::new();
    if parts.len() == 0 {
        proof {
            assert(out@ =~= join_char(parts.deep_view(), d));
        }
        return out;
    }
    out.append(parts[0].as_str());
    let mut i: usize = 1;
    proof {
        assert(out@ =~= parts.deep_view()[0]);
        assert(parts.deep_view().subrange(0, 1) =~= seq![parts.deep_view()[0]]);
    }
    while i < parts.len()
        invariant
            1 <= i <= parts.len(),
            out@ == join_char(parts.deep_view().subrange(0, i as int), d),
        decreases parts.len() - i,
    {
        crate::ascii::push_char(&mut out, d);
        out.append(parts[i].as_str());
        proof {
            let dv = parts.deep_view();
            let a = dv.subrange(0, i as int);
            lemma_join_push(a, dv[i as int], d);
            assert(a.push(dv[i as int]) =~= dv.subrange(0, i + 1));
        }
        i = i + 1;
    }
    proof {
        assert(parts.deep_view().subrange(0, parts.len() as int) =~= parts.deep_view());
    }
    out
}

/// `s` with every leading `c` removed.
pub open spec fn strip_leading(s: Seq<char>, c: char) -> Seq<char>
    decreases s.len(),
{
    if s.len() > 0 && s[0] == c {
        strip_leading(s.drop_first(), c)
    } else {
        s
    }
}

/// The raw key/value pair a segment denotes: the key is everything before the
/// first `=`, the value everything after it with any further leading `=`
/// stripped; a segment without `=` denotes no pair.
pub open spec fn key_value_of(seg: Seq<char>) -> Option<(Seq<char>, Seq<char>)> {
    let i = find_char(seg, '=');
    if i < 0 {
        None
    } else {
        Some((seg.subrange(0, i), strip_leading(seg.subrange(i, seg.len() as int), '=')))
    }
}

/// The first occurrence is the one before which the character is absent.
pub proof fn lemma_find_char_at(s: Seq<char>, d: char, j: int)
    requires
        0 <= j < s.len(),
        s[j] == d,
        no_char(s.subrange(0, j), d),
    ensures
        find_char(s, d) == j,
{
    lemma_find_char(s, d);
    let f = find_char(s, d);
    assert(f != -1) by {
        assert(s[j] == d);
    }
    if f < j {
        assert(s.subrange(0, j)[f] == s[f]);
    }
    if f > j {
        assert(s.subrange(0, f)[j] == s[j]);
    }
}

/// The pair a well-formed `key=value` segment denotes.
pub proof fn lemma_kv_of_seg(k: Seq<char>, v: Seq<char>)
    requires
        no_char(k, '='),
        v.len() > 0 ==> v[0] != '=',
    ensures
        key_value_of(k + seq!['='] + v) == Some((k, v)),
{
    let s = k + seq!['='] + v;
    let j = k.len() as int;
    assert(s[j] == '=');
    assert(s.subrange(0, j) =~= k);
    lemma_find_char_at(s, '=', j);
    let tail = s.subrange(j, s.len() as int);
    assert(tail =~= seq!['='] + v);
    assert(tail[0] == '=');
    assert(tail.drop_first() =~= v);
    assert(strip_leading(v, '=') == v);
}

/// The ordered raw pairs of a segment list; segments without `=` are dropped.
pub open spec fn pairs_of_segs(segs: Seq<Seq<char>>) -> Seq<(Seq<char>, Seq<char>)>
    decreases segs.len(),
{
    if segs.len() == 0 {
        Seq::empty()
    } else {
        let rest = pairs_of_segs(segs.drop_first());
        match key_value_of(segs.first()) {
            Some(kv) => seq![kv] + rest,
            None => rest,
        }
    }
}

/// The ordered raw pairs of a whole wire string.
pub open spec fn pairs_of(s: Seq<char>) -> Seq<(Seq<char>, Seq<char>)> {
    pairs_of_segs(split_terminator_spec(s, ';'))
}

pub proof fn lemma_pairs_of_segs_append(a: Seq<Seq<char>>, b: Seq<Seq<char>>)
    ensures
        pairs_of_segs(a + b) =~= pairs_of_segs(a) + pairs_of_segs(b),
    decreases a.len(),
{
    if a.len() == 0 {
        assert(a + b =~= b);
    } else {
        lemma_pairs_of_segs_append(a.drop_first(), b);
        assert((a + b).drop_first() =~= a.drop_first() + b);
        assert((a + b).first() == a.first());
    }
}

/// Splits `pair` on its first `=` into the key and the value, the value with
/// any further leading `=` characters stripped; yields nothing when the
/// segment contains no `=`.
pub fn from_key_value_pair(pair: &str) -> (r: Option<(&str, &str)>)
    ensures
        r is Some <==> key_value_of(pair@) is Some,
        r is Some ==> ((r->0).0@, (r->0).1@) == key_value_of(pair@)->0,
{
    let n = pair.unicode_len();
    let mut i: usize = 0;
    while i < n
        invariant
            n == pair@.len(),
            i <= n,
            no_char(pair@.subrange(0, i as int), '='),
        decreases n - i,
    {
        if pair.get_char(i) == '=' {
            let key = pair.substring_char(0, i);
            let mut j: usize = i;
            while j < n && pair.get_char(j) == '='
                invariant
                    n == pair@.len(),
                    i <= j <= n,
                    forall|k: int| i <= k < j ==> pair@[k] == '=',
                decreases n - j,
            {
                j = j + 1;
            }
            let value = pair.substring_char(j, n);
            proof {
                lemma_find_char(pair@, '=');
                assert(find_char(pair@, '=') == i) by {
                    let f = find_char(pair@, '=');
                    assert(pair@[i as int] == '=');
                    assert(!no_char(pair@, '='));
                    if f < i {
                        assert(pair@.subrange(0, i as int)[f] == pair@[f]);
                    }
                    if f > i {
                        assert(pair@.subrange(0, f)[i as int] == pair@[i as int]);
                    }
                }
                lemma_strip_leading_range(pair@, i as int, j as int, '=');
            }
            return Some((key, value));
        }
        i = i + 1;
        proof {
            let pre = pair@.subrange(0, i as int);
            assert(forall|k: int|
                0 <= k < i - 1 ==> #[trigger] pre[k] == pair@.subrange(0, i - 1)[k]);
            assert(pre[i - 1] == pair@[i - 1]);
        }
    }
    proof {
        assert(pair@.subrange(0, n as int) =~= pair@);
        lemma_find_char(pair@, '=');
    }
    None
}

/// Stripping leading `c` from a suffix skips exactly the run of `c`.
proof fn lemma_strip_leading_range(s: Seq<char>, a: int, b: int, c: char)
    requires
        0 <= a <= b <= s.len(),
        forall|k: int| a <= k < b ==> s[k] == c,
        b == s.len() || s[b] != c,
    ensures
        strip_leading(s.subrange(a, s.len() as int), c) =~= s.subrange(b, s.len() as int),
    decreases b - a,
{
    let suf = s.subrange(a, s.len() as int);
    if a == b {
        if suf.len() > 0 {
            assert(suf[0] == s[a]);
        }
    } else {
        assert(suf[0] == s[a]);
        assert(suf.drop_first() =~= s.subrange(a + 1, s.len() as int));
        lemma_strip_leading_range(s, a + 1, b, c);
    }
}

/// Splits `s` on `d`, dropping one trailing empty segment, as the wire
/// tokenizer requires.
pub fn split_terminator_str<'a>(s: &'a str, d: char) -> (r: Vec<&'a str>)
    ensures
        r.deep_view() =~= split_terminator_spec(s@, d),
{
    let n = s.unicode_len();
    let mut res: Vec<&str> = Vec::new();
    let mut start: usize = 0;
    let mut i: usize = 0;
    proof {
        assert(s@.subrange(0, n as int) =~= s@);
        assert(res.deep_view() =~= Seq::<Seq<char>>::empty());
        assert(res.deep_view() + split_terminator_spec(s@.subrange(0, n as int), d)
            =~= split_terminator_spec(s@, d));
    }
    while i < n
        invariant
            n == s@.len(),
            start <= i <= n,
            no_char(s@.subrange(start as int, i as int), d),
            res.deep_view() + split_terminator_spec(s@.subrange(start as int, n as int), d)
                =~= split_terminator_spec(s@, d),
        decreases n - i,
    {
        if s.get_char(i) == d {
            let seg = s.substring_char(start, i);
            let ghost prev = res.deep_view();
            res.push(seg);
            proof {
                let pre = s@.subrange(start as int, i as int);
                let suf = s@.subrange(i + 1, n as int);
                assert(s@.subrange(start as int, n as int) =~= pre + seq![d] + suf);
                lemma_split_term_sep(pre, suf, d);
                assert(seg@ == pre);
                assert(res.deep_view() =~= prev.push(seg@));
                assert(res.deep_view() + split_terminator_spec(suf, d) =~= split_terminator_spec(
                    s@,
                    d,
                ));
            }
            start = i + 1;
        } else {
            proof {
                let pre = s@.subrange(start as int, i + 1);
                assert(forall|k: int|
                    0 <= k < i - start ==> #[trigger] pre[k] == s@.subrange(
                        start as int,
                        i as int,
                    )[k]);
                assert(pre[i - start] == s@[i as int]);
            }
        }
        i = i + 1;
    }
    if start < n {
        let seg = s.substring_char(start, n);
        proof {
            lemma_split_term_whole(s@.subrange(start as int, n as int), d);
        }
        let ghost prev = res.deep_view();
        res.push(seg);
        proof {
            assert(res.deep_view() =~= prev.push(seg@));
        }
    } else {
        proof {
            assert(s@.subrange(start as int, n as int).len() == 0);
        }
    }
    res
}

/// Tokenizes a wire string into its ordered raw key/value pairs.
pub fn tokenize(s: &str) -> (r: Vec<(String, String)>)
    ensures
        r.deep_view() =~= pairs_of(s@),
{
    let segs = split_terminator_str(s, ';');
    let mut res: Vec<(String, String)> = Vec::new();
    let mut i: usize = 0;
    while i < segs.len()
        invariant
            res.deep_view() =~= pairs_of_segs(segs.deep_view().subrange(0, i as int)),
            i <= segs.len(),
            segs.deep_view() =~= split_terminator_spec(s@, ';'),
        decreases segs.len() - i,
    {
        let seg = segs[i];
        proof {
            let dv = segs.deep_view();
            assert(dv.subrange(0, i + 1) =~= dv.subrange(0, i as int) + seq![dv[i as int]]);
            lemma_pairs_of_segs_append(dv.subrange(0, i as int), seq![dv[i as int]]);
            let one = seq![dv[i as int]];
            assert(one.drop_first() =~= Seq::<Seq<char>>::empty());
            assert(pairs_of_segs(one.drop_first()) =~= Seq::<(Seq<char>, Seq<char>)>::empty());
            assert(one.first() == dv[i as int]);
            assert(dv[i as int] == segs[i as int]@);
        }
        let ghost prev = res.deep_view();
        match from_key_value_pair(seg) {
            Some((k, v)) => {
                let pair = (k.to_owned(), v.to_owned());
                res.push(pair);
                proof {
                    let dv = segs.deep_view();
                    let kv = key_value_of(dv[i as int])->0;
                    assert(res.deep_view() =~= prev.push(kv));
                    assert(pairs_of_segs(seq![dv[i as int]]) =~= seq![kv] + Seq::<(
                        Seq<char>,
                        Seq<char>,
                    )>::empty());
                    assert(res.deep_view() =~= pairs_of_segs(dv.subrange(0, i + 1)));
                }
            },
            None => {
                proof {
                    let dv = segs.deep_view();
                    assert(pairs_of_segs(seq![dv[i as int]]) =~= Seq::<(
                        Seq<char>,
                        Seq<char>,
                    )>::empty());
                    assert(res.deep_view() =~= pairs_of_segs(dv.subrange(0, i + 1)));
                }
            },
        }
        i = i + 1;
    }
    proof {
        let dv = segs.deep_view();
        assert(dv.subrange(0, segs.len() as int) =~= dv);
    }
    res
}

} // verus!
