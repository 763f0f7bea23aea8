//! The cross-chain requests that a chain owes: the heights of the blocks waiting in its
//! outboxes, grouped by recipient chain and, for each recipient, by medium, both in
//! increasing order.
use vstd::prelude::*;
use vstd::utf8::{decode_utf8, encode_utf8};

use crate::base::{BlockHeight, ChainId};
use crate::subscriptions::{compare_keys, lemma_lex_lt_irreflexive, lemma_lex_lt_transitive, lex_lt, KeyOrder};
use crate::worker::{Medium, MediumView};

verus! {

/// The order of media: direct messages first, then channels by application and by the
/// bytes of their names.
pub open spec fn medium_lt(a: MediumView, b: MediumView) -> bool {
    match (a, b) {
        (MediumView::Direct, MediumView::Channel { .. }) => true,
        (
            MediumView::Channel { application_id: x, name: n },
            MediumView::Channel { application_id: y, name: m },
        ) => x.0 < y.0 || (x.0 == y.0 && lex_lt(encode_utf8(n), encode_utf8(m))),
        _ => false,
    }
}

proof fn lemma_medium_lt_transitive(a: MediumView, b: MediumView, c: MediumView)
    requires
        medium_lt(a, b),
        medium_lt(b, c),
    ensures
        medium_lt(a, c),
{
    match (a, b, c) {
        (
            MediumView::Channel { application_id: x, name: n },
            MediumView::Channel { application_id: y, name: m },
            MediumView::Channel { application_id: z, name: o },
        ) => {
            if x.0 == y.0 && y.0 == z.0 {
                lemma_lex_lt_transitive(encode_utf8(n), encode_utf8(m), encode_utf8(o));
            }
        },
        _ => {},
    }
}

proof fn lemma_medium_lt_irreflexive(a: MediumView)
    ensures
        !medium_lt(a, a),
{
    match a {
        MediumView::Channel { name, .. } => lemma_lex_lt_irreflexive(encode_utf8(name)),
        _ => {},
    }
}

/// Compares two media.
fn compare_media(a: &Medium, b: &Medium) -> (r: KeyOrder)
    ensures
        r is Less <==> medium_lt(a@, b@),
        r is Equal <==> a@ == b@,
        r is Greater <==> medium_lt(b@, a@),
{
    proof {
        lemma_medium_lt_irreflexive(a@);
        lemma_medium_lt_irreflexive(b@);
    }
    match (a, b) {
        (Medium::Direct, Medium::Direct) => KeyOrder::Equal,
        (Medium::Direct, Medium::Channel { .. }) => KeyOrder::Less,
        (Medium::Channel { .. }, Medium::Direct) => KeyOrder::Greater,
        (Medium::Channel { application_id: x, name: n }, Medium::Channel { application_id: y, name: m }) => {
            if x.0 < y.0 {
                KeyOrder::Less
            } else if x.0 > y.0 {
                KeyOrder::Greater
            } else {
                let r = compare_keys(n.as_str().as_bytes(), m.as_str().as_bytes());
                proof {
                    broadcast use vstd::utf8::encode_utf8_decode_utf8;

                    if r is Equal {
                        assert(decode_utf8(encode_utf8(n@)) == n@);
                        assert(decode_utf8(encode_utf8(m@)) == m@);
                    }
                }
                r
            }
        },
    }
}

/// Whether medium `a` comes strictly before medium `b`.
fn medium_precedes(a: &Medium, b: &Medium) -> (r: bool)
    ensures
        r == medium_lt(a@, b@),
{
    match compare_media(a, b) {
        KeyOrder::Less => true,
        _ => false,
    }
}

/// Whether the identifier of chain `a` comes strictly before that of chain `b`.
fn chain_precedes(a: &ChainId, b: &ChainId) -> (r: bool)
    ensures
        r == lex_lt(a@, b@),
{
    match compare_chains(a, b) {
        KeyOrder::Less => true,
        _ => false,
    }
}

/// Compares two chains by the bytes of their identifiers.
fn compare_chains(a: &ChainId, b: &ChainId) -> (r: KeyOrder)
    ensures
        r is Less <==> lex_lt(a@, b@),
        r is Equal <==> *a == *b,
        r is Greater <==> lex_lt(b@, a@),
{
    let r = compare_keys(a.0.bytes.as_slice(), b.0.bytes.as_slice());
    proof {
        if r is Equal {
            assert(a.0.bytes =~= b.0.bytes);
        }
    }
    r
}

/// The contents of grouped outboxes.
pub open spec fn groups_view(o: Seq<(ChainId, Vec<(Medium, Vec<BlockHeight>)>)>) -> Seq<(ChainId, Seq<(MediumView, Seq<BlockHeight>)>)> {
    o.map_values(|g: (ChainId, Vec<(Medium, Vec<BlockHeight>)>)| (g.0, media_view(g.1@)))
}

/// The contents of the outboxes of one recipient.
pub open spec fn media_view(s: Seq<(Medium, Vec<BlockHeight>)>) -> Seq<(MediumView, Seq<BlockHeight>)> {
    s.map_values(|e: (Medium, Vec<BlockHeight>)| (e.0@, e.1@))
}

/// The contents of a list of outboxes: recipient, medium and waiting heights.
pub open spec fn outboxes_view(s: Seq<(ChainId, Medium, Vec<BlockHeight>)>) -> Seq<(ChainId, MediumView, Seq<BlockHeight>)> {
    s.map_values(|e: (ChainId, Medium, Vec<BlockHeight>)| (e.0, e.1@, e.2@))
}

/// Whether the media of one recipient are given, at least one, in increasing order.
pub open spec fn media_sorted(s: Seq<(MediumView, Seq<BlockHeight>)>) -> bool {
    &&& s.len() > 0
    &&& forall|i: int, j: int| 0 <= i < j < s.len() ==> medium_lt(s[i].0, s[j].0)
}

/// Whether recipients come in increasing order, each with its media in increasing order.
pub open spec fn well_grouped(v: Seq<(ChainId, Seq<(MediumView, Seq<BlockHeight>)>)>) -> bool {
    &&& forall|i: int, j: int| 0 <= i < j < v.len() ==> lex_lt(v[i].0@, v[j].0@)
    &&& forall|g: int| 0 <= g < v.len() ==> media_sorted(#[trigger] v[g].1)
}

/// Whether the grouped outboxes `v` list the heights `hs` for recipient `c` and medium
/// `m`.
pub open spec fn grouped_entry(v: Seq<(ChainId, Seq<(MediumView, Seq<BlockHeight>)>)>, c: ChainId, m: MediumView, hs: Seq<BlockHeight>) -> bool {
    exists|g: int, k: int| 0 <= g < v.len() && 0 <= k < v[g].1.len() && v[g].0 == c && #[trigger] v[g].1[k] == (m, hs)
}

/// Whether one of the first `n` outboxes of `s` is for recipient `c` and medium `m`,
/// with the heights `hs`.
pub open spec fn outbox_entry(s: Seq<(ChainId, MediumView, Seq<BlockHeight>)>, n: int, c: ChainId, m: MediumView, hs: Seq<BlockHeight>) -> bool {
    exists|i: int| 0 <= i < n && s[i] == (c, m, hs)
}

/// Whether no two outboxes are for the same recipient and medium.
pub open spec fn distinct_targets(s: Seq<(ChainId, MediumView, Seq<BlockHeight>)>) -> bool {
    forall|i: int, j: int| 0 <= i < j < s.len() ==> !(s[i].0 == s[j].0 && s[i].1 == s[j].1)
}

/// Adding a new recipient adds exactly its one outbox.
proof fn lemma_new_group(v: Seq<(ChainId, Seq<(MediumView, Seq<BlockHeight>)>)>, p: int, c: ChainId, m: MediumView, hs: Seq<BlockHeight>)
    requires
        0 <= p <= v.len(),
    ensures
        forall|c2: ChainId, m2: MediumView, h2: Seq<BlockHeight>| #[trigger] grouped_entry(v.insert(p, (c, seq![(m, hs)])), c2, m2, h2)
            <==> (grouped_entry(v, c2, m2, h2) || (c2 == c && m2 == m && h2 == hs)),
{
    let w = v.insert(p, (c, seq![(m, hs)]));
    assert forall|c2: ChainId, m2: MediumView, h2: Seq<BlockHeight>| #[trigger] grouped_entry(w, c2, m2, h2)
        <==> (grouped_entry(v, c2, m2, h2) || (c2 == c && m2 == m && h2 == hs)) by {
        if grouped_entry(w, c2, m2, h2) {
            let (g, k) = choose|g: int, k: int| 0 <= g < w.len() && 0 <= k < w[g].1.len() && w[g].0 == c2 && #[trigger] w[g].1[k] == (m2, h2);
            if g < p {
                assert(w[g] == v[g]);
            } else if g > p {
                assert(w[g] == v[g - 1]);
            }
        }
        if grouped_entry(v, c2, m2, h2) {
            let (g, k) = choose|g: int, k: int| 0 <= g < v.len() && 0 <= k < v[g].1.len() && v[g].0 == c2 && #[trigger] v[g].1[k] == (m2, h2);
            if g < p {
                assert(w[g] == v[g]);
                assert(w[g].1[k] == (m2, h2));
            } else {
                assert(w[g + 1] == v[g]);
                assert(w[g + 1].1[k] == (m2, h2));
            }
        }
        if c2 == c && m2 == m && h2 == hs {
            assert(w[p].1[0] == (m2, h2));
        }
    }
}

/// Adding an outbox to the recipient at `p` adds exactly that outbox.
proof fn lemma_add_to_group(v: Seq<(ChainId, Seq<(MediumView, Seq<BlockHeight>)>)>, p: int, q: int, m: MediumView, hs: Seq<BlockHeight>)
    requires
        0 <= p < v.len(),
        0 <= q <= v[p].1.len(),
    ensures
        forall|c2: ChainId, m2: MediumView, h2: Seq<BlockHeight>| #[trigger] grouped_entry(v.update(p, (v[p].0, v[p].1.insert(q, (m, hs)))), c2, m2, h2)
            <==> (grouped_entry(v, c2, m2, h2) || (c2 == v[p].0 && m2 == m && h2 == hs)),
{
    let c = v[p].0;
    let w = v.update(p, (c, v[p].1.insert(q, (m, hs))));
    assert forall|c2: ChainId, m2: MediumView, h2: Seq<BlockHeight>| #[trigger] grouped_entry(w, c2, m2, h2)
        <==> (grouped_entry(v, c2, m2, h2) || (c2 == c && m2 == m && h2 == hs)) by {
        if grouped_entry(w, c2, m2, h2) {
            let (g, k) = choose|g: int, k: int| 0 <= g < w.len() && 0 <= k < w[g].1.len() && w[g].0 == c2 && #[trigger] w[g].1[k] == (m2, h2);
            if g != p {
                assert(w[g] == v[g]);
            } else if k < q {
                assert(v[p].1[k] == (m2, h2));
            } else if k > q {
                assert(v[p].1[k - 1] == (m2, h2));
            }
        }
        if grouped_entry(v, c2, m2, h2) {
            let (g, k) = choose|g: int, k: int| 0 <= g < v.len() && 0 <= k < v[g].1.len() && v[g].0 == c2 && #[trigger] v[g].1[k] == (m2, h2);
            if g != p {
                assert(w[g] == v[g]);
                assert(w[g].1[k] == (m2, h2));
            } else if k < q {
                assert(w[p].1[k] == (m2, h2));
            } else {
                assert(w[p].1[k + 1] == (m2, h2));
            }
        }
        if c2 == c && m2 == m && h2 == hs {
            assert(w[p].1[q] == (m2, h2));
        }
    }
}

/// Groups the outboxes of a chain by recipient and, for each recipient, by medium: the
/// recipients come in increasing order of their identifiers, the media of each in
/// increasing order, and every outbox stands in the group of its recipient with its
/// heights. The outboxes are those of distinct targets (recipient and medium).
pub fn group_outboxes(outboxes: Vec<(ChainId, Medium, Vec<BlockHeight>)>) -> (r: Vec<(ChainId, Vec<(Medium, Vec<BlockHeight>)>)>)
    requires
        distinct_targets(outboxes_view(outboxes@)),
    ensures
        well_grouped(groups_view(r@)),
        forall|c: ChainId, m: MediumView, hs: Seq<BlockHeight>| #[trigger] grouped_entry(groups_view(r@), c, m, hs)
            <==> outbox_entry(outboxes_view(outboxes@), outboxes@.len() as int, c, m, hs),
{
    let ghost input = outboxes_view(outboxes@);
    let n = outboxes.len();
    let mut rest = outboxes;
    let mut out: Vec<(ChainId, Vec<(Medium, Vec<BlockHeight>)>)> = Vec::new();
    let mut k: usize = 0;
    while k < n
        invariant
            k <= n,
            n == input.len(),
            distinct_targets(input),
            rest@.len() == n - k,
            forall|j: int| 0 <= j < n - k ==> (#[trigger] rest@[j]).0 == input[j + k].0 && rest@[j].1@ == input[j + k].1
                && rest@[j].2@ == input[j + k].2,
            well_grouped(groups_view(out@)),
            forall|c: ChainId, m: MediumView, hs: Seq<BlockHeight>| #[trigger] grouped_entry(groups_view(out@), c, m, hs)
                <==> outbox_entry(input, k as int, c, m, hs),
        decreases n - k,
    {
        let ghost v = groups_view(out@);
        let (chain, medium, heights) = rest.remove(0);
        proof {
            assert(input[k as int] == (chain, medium@, heights@));
        }
        let len = out.len();
        let mut p: usize = 0;
        while p < len && chain_precedes(&out[p].0, &chain)
            invariant
                p <= len,
                len == out@.len(),
                v == groups_view(out@),
                forall|a: int| 0 <= a < p ==> lex_lt(v[a].0@, chain@),
            decreases len - p,
        {
            p = p + 1;
        }
        let order = if p < len {
            compare_chains(&out[p].0, &chain)
        } else {
            KeyOrder::Greater
        };
        if let KeyOrder::Equal = order {
            let (group_chain, mut media) = out.remove(p);
            let ghost ms = media_view(media@);
            proof {
                assert(v[p as int].1 == ms);
            }
            let mlen = media.len();
            let mut q: usize = 0;
            while q < mlen && medium_precedes(&media[q].0, &medium)
                invariant
                    q <= mlen,
                    mlen == media@.len(),
                    ms == media_view(media@),
                    forall|a: int| 0 <= a < q ==> medium_lt(ms[a].0, medium@),
                decreases mlen - q,
            {
                q = q + 1;
            }
            if q < mlen {
                let media_order = compare_media(&media[q].0, &medium);
                proof {
                    if media_order is Equal {
                        assert(grouped_entry(v, chain, medium@, ms[q as int].1)) by {
                            assert(v[p as int].1[q as int] == (medium@, ms[q as int].1));
                        }
                        let i = choose|i: int| 0 <= i < k && input[i] == (chain, medium@, ms[q as int].1);
                        assert(false);
                    }
                }
            }
            media.insert(q, (medium, heights));
            proof {
                let new_ms = media_view(media@);
                assert(new_ms =~= ms.insert(q as int, (medium@, heights@)));
                assert forall|i: int, j: int| 0 <= i < j < new_ms.len() implies medium_lt(new_ms[i].0, new_ms[j].0) by {
                    if j < q {
                    } else if j == q {
                    } else if i < q {
                        assert(new_ms[j] == ms[j - 1]);
                        if j - 1 > q {
                            lemma_medium_lt_transitive(medium@, ms[q as int].0, ms[j - 1].0);
                        }
                        lemma_medium_lt_transitive(new_ms[i].0, medium@, new_ms[j].0);
                    } else if i == q {
                        assert(new_ms[j] == ms[j - 1]);
                        if j - 1 > q {
                            lemma_medium_lt_transitive(medium@, ms[q as int].0, ms[j - 1].0);
                        }
                    } else {
                        assert(new_ms[i] == ms[i - 1]);
                        assert(new_ms[j] == ms[j - 1]);
                    }
                }
                lemma_add_to_group(v, p as int, q as int, medium@, heights@);
            }
            out.insert(p, (group_chain, media));
            proof {
                let w = groups_view(out@);
                assert(w =~= v.update(p as int, (v[p as int].0, ms.insert(q as int, (medium@, heights@)))));
                assert forall|g: int| 0 <= g < w.len() implies media_sorted(#[trigger] w[g].1) by {
                    if g != p {
                        assert(w[g] == v[g]);
                    }
                }
            }
        } else {
            let mut media: Vec<(Medium, Vec<BlockHeight>)> = Vec::new();
            media.push((medium, heights));
            proof {
                lemma_new_group(v, p as int, chain, medium@, heights@);
            }
            out.insert(p, (chain, media));
            proof {
                let w = groups_view(out@);
                assert(media_view(media@) =~= seq![(medium@, heights@)]);
                assert(w =~= v.insert(p as int, (chain, seq![(medium@, heights@)])));
                assert forall|i: int, j: int| 0 <= i < j < w.len() implies lex_lt(w[i].0@, w[j].0@) by {
                    if j < p {
                    } else if j == p {
                    } else if i < p {
                        assert(w[j] == v[j - 1]);
                        if j - 1 > p {
                            lemma_lex_lt_transitive(chain@, v[p as int].0@, v[j - 1].0@);
                        }
                        lemma_lex_lt_transitive(w[i].0@, chain@, w[j].0@);
                    } else if i == p {
                        assert(w[j] == v[j - 1]);
                        if j - 1 > p {
                            lemma_lex_lt_transitive(chain@, v[p as int].0@, v[j - 1].0@);
                        }
                    } else {
                        assert(w[i] == v[i - 1]);
                        assert(w[j] == v[j - 1]);
                    }
                }
                assert forall|g: int| 0 <= g < w.len() implies media_sorted(#[trigger] w[g].1) by {
                    if g < p {
                        assert(w[g] == v[g]);
                    } else if g > p {
                        assert(w[g] == v[g - 1]);
                    }
                }
            }
        }
        proof {
            assert forall|c: ChainId, m: MediumView, hs: Seq<BlockHeight>| outbox_entry(input, k + 1, c, m, hs)
                <==> (outbox_entry(input, k as int, c, m, hs) || (c == chain && m == medium@ && hs == heights@)) by {
                if outbox_entry(input, k + 1, c, m, hs) {
                    let i = choose|i: int| 0 <= i < k + 1 && input[i] == (c, m, hs);
                    if i < k {
                        assert(outbox_entry(input, k as int, c, m, hs));
                    }
                }
                if outbox_entry(input, k as int, c, m, hs) {
                    let i = choose|i: int| 0 <= i < k && input[i] == (c, m, hs);
                    assert(0 <= i < k + 1 && input[i] == (c, m, hs));
                }
                if c == chain && m == medium@ && hs == heights@ {
                    assert(input[k as int] == (c, m, hs));
                }
            }
        }
        k = k + 1;
    }
    out
}

} // verus!
