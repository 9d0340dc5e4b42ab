//! Laws the codec obeys, stated over the mathematical models and proved from
//! the contracts in `codec`.

use vstd::prelude::*;
use crate::ascii::{lower_char, lower_seq, title_seq, upper_char};
use crate::codec::{
    apply_pair, apply_pairs, decode_spec, encode_spec, init_model, parent_key, parent_prefix,
    parse_parent_spec, root_key, root_prefix, sampled_key, sampled_prefix, sampling_of_token,
    sampling_token, vendor_header_spec,
};
use crate::hex::{lemma_pow16_val, lemma_render_hex_chars, lemma_render_hex_inverse, render_hex};
use crate::model::{ContextModel, SamplingState};
use crate::tokenizer::{
    join_char, key_value_of, lemma_kv_of_seg, lemma_pairs_of_segs_append, lemma_split_term_join,
    no_char, pairs_of, pairs_of_segs, split_terminator_spec,
};
use crate::vendor::{
    allowed_key_char, entry_str, is_lower_or_digit, keep_head, render_entries, valid_ts_key,
    valid_ts_value, vendor_pairs_ok,
};
use crate::xray_id::{lemma_xray_round_trip, xray_decode_spec, xray_encode_spec};

verus! {

/// An invalid context yields no output string at all, whatever its parent
/// id, sampling state or vendor state hold.
pub proof fn lemma_invalid_encodes_to_nothing(m: ContextModel)
    requires
        m.trace_id == crate::INVALID_TRACE_ID,
    ensures
        encode_spec(m) is None,
{
}

/// Decoding is a function of the input string alone: two decodes of the same
/// string yield equal results.
pub proof fn lemma_decode_deterministic(s: Seq<char>, a: ContextModel, b: ContextModel)
    requires
        decode_spec(s) == Some(a),
        decode_spec(s) == Some(b),
    ensures
        a == b,
{
}

proof fn lemma_apply_pairs_root_abort(
    st: ContextModel,
    ps: Seq<(Seq<char>, Seq<char>)>,
    i: int,
)
    requires
        0 <= i < ps.len(),
        ps[i].0 == root_key(),
        xray_decode_spec(ps[i].1) is None,
    ensures
        apply_pairs(st, ps) is None,
    decreases ps.len(),
{
    if i == 0 {
        assert(apply_pair(st, ps.first()) is None);
    } else {
        match apply_pair(st, ps.first()) {
            None => {},
            Some(st2) => {
                assert(ps.drop_first()[i - 1] == ps[i]);
                lemma_apply_pairs_root_abort(st2, ps.drop_first(), i - 1);
            },
        }
    }
}

/// A malformed `Root` anywhere in the header aborts the entire parse: the
/// decode yields no context, not a partial one.
pub proof fn lemma_malformed_root_aborts(s: Seq<char>, i: int)
    requires
        0 <= i < pairs_of(s).len(),
        pairs_of(s)[i].0 == root_key(),
        xray_decode_spec(pairs_of(s)[i].1) is None,
    ensures
        decode_spec(s) is None,
{
    lemma_apply_pairs_root_abort(init_model(), pairs_of(s), i);
}

proof fn lemma_apply_pairs_keeps_sampling(st: ContextModel, ps: Seq<(Seq<char>, Seq<char>)>)
    requires
        forall|i: int| 0 <= i < ps.len() ==> (#[trigger] ps[i]).0 != sampled_key(),
    ensures
        apply_pairs(st, ps) matches Some(st2) ==> st2.sampling == st.sampling,
    decreases ps.len(),
{
    if ps.len() > 0 {
        match apply_pair(st, ps.first()) {
            None => {},
            Some(st2) => {
                assert(ps.first() == ps[0]);
                assert(st2.sampling == st.sampling);
                assert(forall|i: int|
                    0 <= i < ps.drop_first().len() ==> (#[trigger] ps.drop_first()[i]) == ps[i
                        + 1]);
                lemma_apply_pairs_keeps_sampling(st2, ps.drop_first());
            },
        }
    }
}

proof fn lemma_no_char_append(a: Seq<char>, b: Seq<char>, d: char)
    requires
        no_char(a, d),
        no_char(b, d),
    ensures
        no_char(a + b, d),
{
    assert forall|i: int| 0 <= i < (a + b).len() implies #[trigger] (a + b)[i] != d by {
        if i < a.len() {
            assert((a + b)[i] == a[i]);
        } else {
            assert((a + b)[i] == b[i - a.len()]);
        }
    }
}

proof fn lemma_lower_upper(c: char)
    requires
        is_lower_or_digit(c),
    ensures
        lower_char(upper_char(c)) == c,
{
}

proof fn lemma_allowed_lower(c: char)
    requires
        allowed_key_char(c),
    ensures
        lower_char(c) == c,
{
}

/// Title-casing a key the vendor-state container accepts and lowercasing the
/// result gives the key back: accepted keys hold no uppercase letters.
proof fn lemma_lower_title(k: Seq<char>)
    requires
        valid_ts_key(k),
    ensures
        lower_seq(title_seq(k)) =~= k,
{
    if k.len() == 0 {
    } else {
        let t = title_seq(k);
        assert(t.len() == k.len());
        assert forall|i: int| 0 <= i < k.len() implies #[trigger] lower_seq(t)[i] == k[i] by {
            assert(lower_seq(t)[i] == lower_char(t[i]));
            if i == 0 {
                assert(t[0] == upper_char(k[0]));
                lemma_lower_upper(k[0]);
            } else {
                assert(t[i] == k.subrange(1, k.len() as int)[i - 1]);
                assert(t[i] == k[i]);
                lemma_allowed_lower(k[i]);
            }
        }
    }
}

/// The title-cased wire segment of one vendor entry.
proof fn lemma_title_entry(kk: Seq<char>, vv: Seq<char>)
    requires
        valid_ts_key(kk),
        no_char(vv, '='),
    ensures
        title_seq(entry_str((kk, vv))) =~= title_seq(kk) + seq!['='] + vv,
        no_char(title_seq(kk), '='),
{
    let e = entry_str((kk, vv));
    assert(e =~= kk + seq!['='] + vv);
    if kk.len() == 0 {
        assert(e[0] == '=');
        assert(upper_char('=') == '=');
        assert(title_seq(e) =~= title_seq(kk) + seq!['='] + vv);
    } else {
        assert(e[0] == kk[0]);
        assert(title_seq(e) =~= seq![upper_char(kk[0])] + e.subrange(1, e.len() as int));
        assert(title_seq(e) =~= title_seq(kk) + seq!['='] + vv);
    }
    assert forall|i: int| 0 <= i < title_seq(kk).len() implies #[trigger] title_seq(kk)[i]
        != '=' by {
        if i == 0 {
            assert(title_seq(kk)[0] == upper_char(kk[0]));
            assert(allowed_key_char(kk[0]));
        } else {
            assert(title_seq(kk)[i] == kk[i]);
            assert(allowed_key_char(kk[i]));
        }
    }
}

/// The raw pairs the title-cased vendor segments denote.
proof fn lemma_pairs_of_titled(es: Seq<(Seq<char>, Seq<char>)>)
    requires
        vendor_pairs_ok(es),
    ensures
        pairs_of_segs(es.map_values(|e: (Seq<char>, Seq<char>)| title_seq(entry_str(e))))
            =~= es.map_values(|e: (Seq<char>, Seq<char>)| (title_seq(e.0), e.1)),
    decreases es.len(),
{
    let tsegs = es.map_values(|e: (Seq<char>, Seq<char>)| title_seq(entry_str(e)));
    let tpairs = es.map_values(|e: (Seq<char>, Seq<char>)| (title_seq(e.0), e.1));
    if es.len() > 0 {
        let k0 = es[0].0;
        let v0 = es[0].1;
        assert(valid_ts_key(k0) && valid_ts_value(v0));
        lemma_title_entry(k0, v0);
        lemma_kv_of_seg(title_seq(k0), v0);
        assert(tsegs.first() == title_seq(entry_str(es[0])));
        assert(tsegs.first() == title_seq(k0) + seq!['='] + v0);
        assert(key_value_of(tsegs.first()) == Some((title_seq(k0), v0)));
        let rest = es.drop_first();
        assert(vendor_pairs_ok(rest)) by {
            assert(forall|i: int| 0 <= i < rest.len() ==> #[trigger] rest[i] == es[i + 1]);
        }
        lemma_pairs_of_titled(rest);
        assert(tsegs.drop_first() =~= rest.map_values(
            |e: (Seq<char>, Seq<char>)| title_seq(entry_str(e)),
        ));
        assert(tpairs.drop_first() =~= rest.map_values(
            |e: (Seq<char>, Seq<char>)| (title_seq(e.0), e.1),
        ));
        assert(pairs_of_segs(tsegs) =~= seq![(title_seq(k0), v0)] + pairs_of_segs(
            tsegs.drop_first(),
        ));
        assert(tpairs[0] == (title_seq(k0), v0));
    }
}

/// Folding the title-cased vendor pairs appends exactly the original entries.
proof fn lemma_apply_titled(st: ContextModel, es: Seq<(Seq<char>, Seq<char>)>)
    requires
        vendor_pairs_ok(es),
        forall|i: int| 0 <= i < es.len() ==> (#[trigger] es[i]).0 != lower_seq(root_key()),
        forall|i: int| 0 <= i < es.len() ==> (#[trigger] es[i]).0 != lower_seq(parent_key()),
        forall|i: int| 0 <= i < es.len() ==> (#[trigger] es[i]).0 != lower_seq(sampled_key()),
    ensures
        apply_pairs(st, es.map_values(|e: (Seq<char>, Seq<char>)| (title_seq(e.0), e.1))) == Some(
            ContextModel { vendor: st.vendor + es, ..st },
        ),
    decreases es.len(),
{
    let tpairs = es.map_values(|e: (Seq<char>, Seq<char>)| (title_seq(e.0), e.1));
    if es.len() == 0 {
        assert(st.vendor + es =~= st.vendor);
        assert(ContextModel { vendor: st.vendor + es, ..st } =~= st);
    } else {
        let k0 = es[0].0;
        let v0 = es[0].1;
        lemma_lower_title(k0);
        assert(tpairs.first() == (title_seq(k0), v0));
        assert(title_seq(k0) != root_key()) by {
            if title_seq(k0) == root_key() {
                assert(lower_seq(title_seq(k0)) == lower_seq(root_key()));
                assert(k0 == lower_seq(root_key()));
            }
        }
        assert(title_seq(k0) != parent_key()) by {
            if title_seq(k0) == parent_key() {
                assert(k0 == lower_seq(parent_key()));
            }
        }
        assert(title_seq(k0) != sampled_key()) by {
            if title_seq(k0) == sampled_key() {
                assert(k0 == lower_seq(sampled_key()));
            }
        }
        let st2 = ContextModel { vendor: st.vendor.push((lower_seq(title_seq(k0)), v0)), ..st };
        assert(apply_pair(st, tpairs.first()) == Some(st2));
        let rest = es.drop_first();
        assert(vendor_pairs_ok(rest) && forall|i: int|
            0 <= i < rest.len() ==> (#[trigger] rest[i]) == es[i + 1]);
        lemma_apply_titled(st2, rest);
        assert(tpairs.drop_first() =~= rest.map_values(
            |e: (Seq<char>, Seq<char>)| (title_seq(e.0), e.1),
        ));
        assert(st2.vendor + rest =~= st.vendor + es) by {
            assert(st2.vendor == st.vendor.push((lower_seq(title_seq(k0)), v0)));
            assert(lower_seq(title_seq(k0)) =~= k0);
            assert((lower_seq(title_seq(k0)), v0) == es[0]);
        }
        assert(ContextModel { vendor: st2.vendor + rest, ..st2 } =~= ContextModel {
            vendor: st.vendor + es,
            ..st
        });
    }
}

/// A header with no `Sampled` field decodes to the deferred sampling state:
/// a missing decision is one not yet made, never an explicit one.
pub proof fn lemma_no_sampled_defers(s: Seq<char>, m: ContextModel)
    requires
        decode_spec(s) == Some(m),
        forall|i: int| 0 <= i < pairs_of(s).len() ==> (#[trigger] pairs_of(s)[i]).0
            != sampled_key(),
    ensures
        m.sampling == SamplingState::Deferred,
{
    lemma_apply_pairs_keeps_sampling(init_model(), pairs_of(s));
}

/// Round trip: a valid context with vendor entries the container accepts,
/// whose keys are not the lowercased structural field names and whose values
/// hold no `;`, encodes to a wire string that decodes back to the very same
/// context. Accepted vendor keys are already lowercase, so the decoder's key
/// normalization changes nothing.
pub proof fn lemma_round_trip(m: ContextModel)
    requires
        m.trace_id != crate::INVALID_TRACE_ID,
        0 < m.vendor.len() <= 32,
        vendor_pairs_ok(m.vendor),
        forall|i: int| 0 <= i < m.vendor.len() ==> no_char((#[trigger] m.vendor[i]).1, ';'),
        forall|i: int| 0 <= i < m.vendor.len() ==> (#[trigger] m.vendor[i]).0 != lower_seq(
            root_key(),
        ),
        forall|i: int| 0 <= i < m.vendor.len() ==> (#[trigger] m.vendor[i]).0 != lower_seq(
            parent_key(),
        ),
        forall|i: int| 0 <= i < m.vendor.len() ==> (#[trigger] m.vendor[i]).0 != lower_seq(
            sampled_key(),
        ),
    ensures
        encode_spec(m) is Some,
        decode_spec(encode_spec(m)->0) == Some(m),
{
    let id = m.trace_id;
    let pid = m.parent_id;
    let es = m.vendor;
    let digits = render_hex(id as int, 32);
    let xray = xray_encode_spec(id);
    let phex = render_hex(pid as int, 16);
    let tok = sampling_token(m.sampling);
    let root_seg = root_prefix() + xray;
    let parent_seg = parent_prefix() + phex;
    let sampled_seg = sampled_prefix() + tok;
    let esegs = es.map_values(|e: (Seq<char>, Seq<char>)| entry_str(e));
    let tsegs = es.map_values(|e: (Seq<char>, Seq<char>)| title_seq(entry_str(e)));
    let tpairs = es.map_values(|e: (Seq<char>, Seq<char>)| (title_seq(e.0), e.1));
    lemma_pow16_val();
    lemma_render_hex_chars(id as int, 32);
    lemma_render_hex_chars(pid as int, 16);

    // The vendor header: rendering, re-splitting, title-casing.
    assert forall|i: int| 0 <= i < esegs.len() implies no_char(#[trigger] esegs[i], ';')
        && esegs[i].len() > 0 by {
        let k = es[i].0;
        let v = es[i].1;
        assert(esegs[i] == entry_str(es[i]));
        assert(no_char(k, ';')) by {
            assert(forall|j: int| 0 <= j < k.len() ==> allowed_key_char(#[trigger] k[j]));
        }
        assert(no_char(seq!['='], ';')) by {
            assert(seq!['='][0] == '=');
        }
        lemma_no_char_append(k, seq!['='], ';');
        lemma_no_char_append(k + seq!['='], v, ';');
        assert(entry_str(es[i]) =~= (k + seq!['=']) + v);
    }
    assert(esegs.len() > 0);
    assert(esegs.last() == esegs[esegs.len() - 1]);
    lemma_split_term_join(esegs, ';');
    assert(render_entries(es) == join_char(esegs, ';'));
    assert(split_terminator_spec(render_entries(es), ';') =~= esegs);
    let vh = vendor_header_spec(es);
    assert(vh == join_char(
        esegs.map_values(|seg: Seq<char>| title_seq(seg)),
        ';',
    ));
    assert(esegs.map_values(|seg: Seq<char>| title_seq(seg)) =~= tsegs);
    assert(vh == join_char(tsegs, ';'));

    // Each title-cased vendor segment is `;`-free and non-empty.
    assert forall|i: int| 0 <= i < tsegs.len() implies no_char(#[trigger] tsegs[i], ';')
        && tsegs[i].len() > 0 by {
        let e = esegs[i];
        assert(tsegs[i] == title_seq(entry_str(es[i])));
        assert(tsegs[i] == title_seq(e));
        assert(no_char(e, ';') && e.len() > 0);
        assert(tsegs[i].len() == e.len());
        assert forall|j: int| 0 <= j < tsegs[i].len() implies #[trigger] tsegs[i][j] != ';' by {
            if j == 0 {
                assert(tsegs[i][0] == upper_char(e[0]));
                assert(e[0] != ';');
            } else {
                assert(tsegs[i][j] == e.subrange(1, e.len() as int)[j - 1]);
                assert(tsegs[i][j] == e[j]);
            }
        }
    }
    assert(vh.len() > 0) by {
        if tsegs.len() == 1 {
            assert(vh == tsegs[0]);
        } else {
            assert(vh == tsegs[0] + seq![';'] + join_char(tsegs.drop_first(), ';'));
        }
    }

    // The whole wire string is the `;`-join of all segments.
    let w = encode_spec(m)->0;
    let all_segs = seq![root_seg, parent_seg, sampled_seg] + tsegs;
    assert(w =~= root_seg + seq![';'] + parent_seg + seq![';'] + sampled_seg + seq![';'] + vh);
    assert(w =~= join_char(all_segs, ';')) by {
        let s3 = seq![sampled_seg] + tsegs;
        let s2 = seq![parent_seg] + s3;
        assert(all_segs.drop_first() =~= s2);
        assert(s2.drop_first() =~= s3);
        assert(s3.drop_first() =~= tsegs);
        assert(s3.len() >= 2);
        assert(join_char(s3, ';') == sampled_seg + seq![';'] + join_char(tsegs, ';'));
        assert(join_char(s2, ';') == parent_seg + seq![';'] + join_char(s3, ';'));
        assert(join_char(all_segs, ';') == root_seg + seq![';'] + join_char(s2, ';'));
    }

    // Splitting gives the segments back.
    assert(no_char(root_seg, ';')) by {
        assert(no_char(root_prefix(), ';')) by {
            assert forall|j: int| 0 <= j < root_prefix().len() implies #[trigger] root_prefix()[j]
                != ';' by {
                assert(root_prefix()[0] == 'R' && root_prefix()[1] == 'o' && root_prefix()[2]
                    == 'o' && root_prefix()[3] == 't' && root_prefix()[4] == '=');
            }
        }
        assert(no_char(xray, ';')) by {
            assert forall|j: int| 0 <= j < xray.len() implies #[trigger] xray[j] != ';' by {
                lemma_xray_chars(id, j);
            }
        }
        lemma_no_char_append(root_prefix(), xray, ';');
    }
    assert(no_char(parent_seg, ';')) by {
        assert(no_char(parent_prefix(), ';')) by {
            assert forall|j: int|
                0 <= j < parent_prefix().len() implies #[trigger] parent_prefix()[j] != ';' by {
                assert(parent_prefix()[0] == 'P' && parent_prefix()[1] == 'a' && parent_prefix()[2]
                    == 'r' && parent_prefix()[3] == 'e' && parent_prefix()[4] == 'n'
                    && parent_prefix()[5] == 't' && parent_prefix()[6] == '=');
            }
        }
        assert(no_char(phex, ';')) by {
            assert(forall|j: int| 0 <= j < phex.len() ==> #[trigger] phex[j] != ';');
        }
        lemma_no_char_append(parent_prefix(), phex, ';');
    }
    assert(no_char(sampled_seg, ';')) by {
        assert(no_char(sampled_prefix(), ';')) by {
            assert forall|j: int|
                0 <= j < sampled_prefix().len() implies #[trigger] sampled_prefix()[j] != ';' by {
                assert(sampled_prefix()[0] == 'S' && sampled_prefix()[1] == 'a'
                    && sampled_prefix()[2] == 'm' && sampled_prefix()[3] == 'p'
                    && sampled_prefix()[4] == 'l' && sampled_prefix()[5] == 'e'
                    && sampled_prefix()[6] == 'd' && sampled_prefix()[7] == '=');
            }
        }
        assert(no_char(tok, ';')) by {
            assert(tok.len() == 1 && tok[0] != ';');
        }
        lemma_no_char_append(sampled_prefix(), tok, ';');
    }
    assert forall|i: int| 0 <= i < all_segs.len() implies no_char(#[trigger] all_segs[i], ';') by {
        if i >= 3 {
            assert(all_segs[i] == tsegs[i - 3]);
        }
    }
    assert(all_segs.last() == tsegs[tsegs.len() - 1]);
    assert(all_segs.last().len() > 0);
    lemma_split_term_join(all_segs, ';');
    assert(split_terminator_spec(w, ';') =~= all_segs);

    // The raw pairs of the wire string.
    lemma_kv_of_seg(root_key(), xray);
    assert(root_seg =~= root_key() + seq!['='] + xray);
    assert(xray[0] == '1');
    lemma_kv_of_seg(parent_key(), phex);
    assert(parent_seg =~= parent_key() + seq!['='] + phex);
    assert(phex[0] != '=');
    lemma_kv_of_seg(sampled_key(), tok);
    assert(sampled_seg =~= sampled_key() + seq!['='] + tok);
    assert(tok[0] != '=');
    assert(no_char(root_key(), '=')) by {
        assert forall|j: int| 0 <= j < root_key().len() implies #[trigger] root_key()[j] != '=' by {
            assert(root_key()[0] == 'R' && root_key()[1] == 'o' && root_key()[2] == 'o'
                && root_key()[3] == 't');
        }
    }
    assert(no_char(parent_key(), '=')) by {
        assert forall|j: int|
            0 <= j < parent_key().len() implies #[trigger] parent_key()[j] != '=' by {
            assert(parent_key()[0] == 'P' && parent_key()[1] == 'a' && parent_key()[2] == 'r'
                && parent_key()[3] == 'e' && parent_key()[4] == 'n' && parent_key()[5] == 't');
        }
    }
    assert(no_char(sampled_key(), '=')) by {
        assert forall|j: int|
            0 <= j < sampled_key().len() implies #[trigger] sampled_key()[j] != '=' by {
            assert(sampled_key()[0] == 'S' && sampled_key()[1] == 'a' && sampled_key()[2] == 'm'
                && sampled_key()[3] == 'p' && sampled_key()[4] == 'l' && sampled_key()[5] == 'e'
                && sampled_key()[6] == 'd');
        }
    }
    let head_segs = seq![root_seg, parent_seg, sampled_seg];
    lemma_pairs_of_segs_append(head_segs, tsegs);
    lemma_pairs_of_titled(es);
    let head_pairs = seq![(root_key(), xray), (parent_key(), phex), (sampled_key(), tok)];
    assert(pairs_of_segs(head_segs) =~= head_pairs) by {
        let h2 = seq![parent_seg, sampled_seg];
        let h3 = seq![sampled_seg];
        assert(head_segs.drop_first() =~= h2);
        assert(h2.drop_first() =~= h3);
        assert(h3.drop_first() =~= Seq::<Seq<char>>::empty());
        assert(pairs_of_segs(Seq::<Seq<char>>::empty()) =~= Seq::<(Seq<char>, Seq<char>)>::empty());
        assert(key_value_of(head_segs.first()) == Some((root_key(), xray)));
        assert(key_value_of(h2.first()) == Some((parent_key(), phex)));
        assert(key_value_of(h3.first()) == Some((sampled_key(), tok)));
        assert(pairs_of_segs(h3) =~= seq![(sampled_key(), tok)] + pairs_of_segs(
            Seq::<Seq<char>>::empty(),
        ));
        assert(pairs_of_segs(h2) =~= seq![(parent_key(), phex)] + pairs_of_segs(h3));
        assert(pairs_of_segs(head_segs) =~= seq![(root_key(), xray)] + pairs_of_segs(h2));
    }
    let all_pairs = pairs_of(w);
    assert(all_pairs =~= head_pairs + tpairs);

    // Folding the pairs rebuilds the context.
    let st0 = init_model();
    lemma_xray_round_trip(id);
    let st1 = ContextModel { trace_id: id, ..st0 };
    assert(apply_pair(st0, (root_key(), xray)) == Some(st1));
    assert(parent_key() != root_key()) by {
        assert(parent_key().len() != root_key().len());
    }
    assert(sampled_key() != root_key()) by {
        assert(sampled_key().len() != root_key().len());
    }
    assert(sampled_key() != parent_key()) by {
        assert(sampled_key().len() != parent_key().len());
    }
    lemma_render_hex_inverse(pid as int, 16);
    assert(parse_parent_spec(phex) == pid);
    let st2 = ContextModel { parent_id: pid, ..st1 };
    assert(apply_pair(st1, (parent_key(), phex)) == Some(st2));
    assert(sampling_of_token(tok) == m.sampling) by {
        assert(seq!['?'][0] == '?' && seq!['1'][0] == '1' && seq!['0'][0] == '0');
        match m.sampling {
            SamplingState::Deferred => {
                assert(tok != seq!['0'] && tok != seq!['1']);
            },
            SamplingState::Sampled => {
                assert(tok != seq!['0']);
            },
            SamplingState::NotSampled => {
                assert(tok == seq!['0']);
            },
        }
    }
    let st3 = ContextModel { sampling: m.sampling, ..st2 };
    assert(apply_pair(st2, (sampled_key(), tok)) == Some(st3));
    lemma_apply_titled(st3, es);
    let st4 = ContextModel { vendor: st3.vendor + es, ..st3 };
    assert(apply_pairs(st3, tpairs) == Some(st4));
    assert(apply_pairs(st0, all_pairs) == Some(st4)) by {
        let p1 = all_pairs.drop_first();
        let p2 = p1.drop_first();
        let p3 = p2.drop_first();
        assert(all_pairs.first() == (root_key(), xray));
        assert(p1.first() == (parent_key(), phex));
        assert(p2.first() == (sampled_key(), tok));
        assert(p3 =~= tpairs);
        assert(apply_pairs(st3, p3) == Some(st4));
        assert(apply_pairs(st2, p2) == Some(st4));
        assert(apply_pairs(st1, p1) == Some(st4));
    }

    // The decoded model is the original one.
    assert(st4.vendor =~= es);
    assert(keep_head(st4.vendor) == st4.vendor);
    assert(vendor_pairs_ok(keep_head(st4.vendor)));
    assert(ContextModel { vendor: keep_head(st4.vendor), ..st4 } =~= m);
}

/// Every character of an encoded trace id is a digit, a lowercase
/// hexadecimal letter, or a hyphen; in particular none is `;` or `=`.
proof fn lemma_xray_chars(id: u128, j: int)
    requires
        0 <= j < xray_encode_spec(id).len(),
    ensures
        xray_encode_spec(id)[j] == '-' || '0' <= xray_encode_spec(id)[j]
            && xray_encode_spec(id)[j] <= '9' || 'a' <= xray_encode_spec(id)[j]
            && xray_encode_spec(id)[j] <= 'f',
        xray_encode_spec(id)[0] == '1',
{
    lemma_render_hex_chars(id as int, 32);
    let digits = render_hex(id as int, 32);
    let x = xray_encode_spec(id);
    assert(x =~= seq!['1', '-'] + digits.subrange(0, 8) + seq!['-'] + digits.subrange(8, 32));
    assert(x[0] == '1');
    if j >= 2 {
        if j < 10 {
            assert(x[j] == digits.subrange(0, 8)[j - 2]);
            assert(x[j] == digits[j - 2]);
        } else if j == 10 {
            assert(x[j] == '-');
        } else {
            assert(x[j] == digits.subrange(8, 32)[j - 11]);
            assert(x[j] == digits[j - 3]);
        }
    } else if j == 1 {
        assert(x[1] == '-');
    }
}

} // verus!
