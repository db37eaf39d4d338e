//! What merging the impression and conversion streams keeps: every action
//! exactly once, each kind in its own order, and timestamp order.

use vstd::prelude::*;

use crate::common_types::{ConversionView, Timestamp};
use crate::dataset::{spec_merge, view_timestamp, ImpressionRow, LazyActionView};

verus! {

/// The impressions of a stream, in stream order.
pub open spec fn impressions_of(s: Seq<LazyActionView>) -> Seq<ImpressionRow>
    decreases s.len(),
{
    if s.len() == 0 {
        Seq::empty()
    } else {
        match s[0] {
            LazyActionView::Impression(r) => seq![r] + impressions_of(s.drop_first()),
            LazyActionView::Conversion(_) => impressions_of(s.drop_first()),
        }
    }
}

/// The conversions of a stream, in stream order.
pub open spec fn conversions_of(s: Seq<LazyActionView>) -> Seq<ConversionView>
    decreases s.len(),
{
    if s.len() == 0 {
        Seq::empty()
    } else {
        match s[0] {
            LazyActionView::Impression(_) => conversions_of(s.drop_first()),
            LazyActionView::Conversion(c) => seq![c] + conversions_of(s.drop_first()),
        }
    }
}

pub open spec fn sorted_by_timestamp(s: Seq<LazyActionView>) -> bool {
    forall|i: int, j: int| 0 <= i <= j < s.len() ==> view_timestamp(#[trigger] s[i]) <= view_timestamp(#[trigger] s[j])
}

pub open spec fn rows_sorted(s: Seq<ImpressionRow>) -> bool {
    forall|i: int, j: int| 0 <= i <= j < s.len() ==> (#[trigger] s[i]).timestamp <= (#[trigger] s[j]).timestamp
}

pub open spec fn conversions_sorted(s: Seq<ConversionView>) -> bool {
    forall|i: int, j: int| 0 <= i <= j < s.len() ==> (#[trigger] s[i]).timestamp <= (#[trigger] s[j]).timestamp
}

proof fn lemma_only_conversions(convs: Seq<ConversionView>)
    ensures
        impressions_of(convs.map_values(|c: ConversionView| LazyActionView::Conversion(c))) == Seq::<ImpressionRow>::empty(),
        conversions_of(convs.map_values(|c: ConversionView| LazyActionView::Conversion(c))) == convs,
    decreases convs.len(),
{
    let m = convs.map_values(|c: ConversionView| LazyActionView::Conversion(c));
    if convs.len() > 0 {
        lemma_only_conversions(convs.drop_first());
        assert(m.drop_first() =~= convs.drop_first().map_values(|c: ConversionView| LazyActionView::Conversion(c)));
        assert(convs =~= seq![convs[0]] + convs.drop_first());
    } else {
        assert(m =~= Seq::<LazyActionView>::empty());
        assert(convs =~= Seq::<ConversionView>::empty());
    }
}

proof fn lemma_only_impressions(imps: Seq<ImpressionRow>)
    ensures
        impressions_of(imps.map_values(|r: ImpressionRow| LazyActionView::Impression(r))) == imps,
        conversions_of(imps.map_values(|r: ImpressionRow| LazyActionView::Impression(r))) == Seq::<ConversionView>::empty(),
    decreases imps.len(),
{
    let m = imps.map_values(|r: ImpressionRow| LazyActionView::Impression(r));
    if imps.len() > 0 {
        lemma_only_impressions(imps.drop_first());
        assert(m.drop_first() =~= imps.drop_first().map_values(|r: ImpressionRow| LazyActionView::Impression(r)));
        assert(imps =~= seq![imps[0]] + imps.drop_first());
    } else {
        assert(m =~= Seq::<LazyActionView>::empty());
        assert(imps =~= Seq::<ImpressionRow>::empty());
    }
}

/// Every action of the merge has a timestamp no earlier than `lb` when every
/// input action has.
proof fn lemma_merge_lower_bound(imps: Seq<ImpressionRow>, convs: Seq<ConversionView>, lb: Timestamp)
    requires
        forall|i: int| 0 <= i < imps.len() ==> lb <= (#[trigger] imps[i]).timestamp,
        forall|i: int| 0 <= i < convs.len() ==> lb <= (#[trigger] convs[i]).timestamp,
    ensures
        forall|k: int| 0 <= k < spec_merge(imps, convs).len() ==> lb <= view_timestamp(#[trigger] spec_merge(imps, convs)[k]),
    decreases imps.len() + convs.len(),
{
    let m = spec_merge(imps, convs);
    if imps.len() == 0 {
        assert forall|k: int| 0 <= k < m.len() implies lb <= view_timestamp(#[trigger] m[k]) by {
            assert(m[k] == LazyActionView::Conversion(convs[k]));
        }
    } else if convs.len() == 0 {
        assert forall|k: int| 0 <= k < m.len() implies lb <= view_timestamp(#[trigger] m[k]) by {
            assert(m[k] == LazyActionView::Impression(imps[k]));
        }
    } else if convs[0].timestamp < imps[0].timestamp {
        let rest = convs.drop_first();
        lemma_merge_lower_bound(imps, rest, lb);
        assert forall|k: int| 0 <= k < m.len() implies lb <= view_timestamp(#[trigger] m[k]) by {
            if k > 0 {
                assert(m[k] == spec_merge(imps, rest)[k - 1]);
            }
        }
    } else {
        let rest = imps.drop_first();
        lemma_merge_lower_bound(rest, convs, lb);
        assert forall|k: int| 0 <= k < m.len() implies lb <= view_timestamp(#[trigger] m[k]) by {
            if k > 0 {
                assert(m[k] == spec_merge(rest, convs)[k - 1]);
            }
        }
    }
}

/// Merging keeps every action exactly once: the merge is as long as both
/// streams together, its impressions are the impression stream and its
/// conversions the conversion stream, each in its own order; and when both
/// streams are in timestamp order, so is the merge.
pub proof fn lemma_merge_interleaves(imps: Seq<ImpressionRow>, convs: Seq<ConversionView>)
    ensures
        spec_merge(imps, convs).len() == imps.len() + convs.len(),
        impressions_of(spec_merge(imps, convs)) == imps,
        conversions_of(spec_merge(imps, convs)) == convs,
        rows_sorted(imps) && conversions_sorted(convs) ==> sorted_by_timestamp(spec_merge(imps, convs)),
    decreases imps.len() + convs.len(),
{
    let m = spec_merge(imps, convs);
    if imps.len() == 0 {
        lemma_only_conversions(convs);
        assert(imps =~= Seq::<ImpressionRow>::empty());
        if conversions_sorted(convs) {
            assert forall|i: int, j: int| 0 <= i <= j < m.len() implies view_timestamp(#[trigger] m[i]) <= view_timestamp(#[trigger] m[j]) by {
                assert(m[i] == LazyActionView::Conversion(convs[i]));
                assert(m[j] == LazyActionView::Conversion(convs[j]));
            }
        }
    } else if convs.len() == 0 {
        lemma_only_impressions(imps);
        assert(convs =~= Seq::<ConversionView>::empty());
        if rows_sorted(imps) {
            assert forall|i: int, j: int| 0 <= i <= j < m.len() implies view_timestamp(#[trigger] m[i]) <= view_timestamp(#[trigger] m[j]) by {
                assert(m[i] == LazyActionView::Impression(imps[i]));
                assert(m[j] == LazyActionView::Impression(imps[j]));
            }
        }
    } else if convs[0].timestamp < imps[0].timestamp {
        let rest = convs.drop_first();
        let tail = spec_merge(imps, rest);
        lemma_merge_interleaves(imps, rest);
        assert(m.drop_first() =~= tail);
        assert(convs =~= seq![convs[0]] + rest);
        if rows_sorted(imps) && conversions_sorted(convs) {
            assert(conversions_sorted(rest)) by {
                assert forall|i: int, j: int| 0 <= i <= j < rest.len() implies (#[trigger] rest[i]).timestamp <= (#[trigger] rest[j]).timestamp by {
                    assert(rest[i] == convs[i + 1] && rest[j] == convs[j + 1]);
                }
            }
            lemma_merge_lower_bound(imps, rest, convs[0].timestamp);
            assert forall|i: int, j: int| 0 <= i <= j < m.len() implies view_timestamp(#[trigger] m[i]) <= view_timestamp(#[trigger] m[j]) by {
                if i == 0 {
                    if j > 0 {
                        assert(m[j] == tail[j - 1]);
                    }
                } else {
                    assert(m[i] == tail[i - 1] && m[j] == tail[j - 1]);
                }
            }
        }
    } else {
        let rest = imps.drop_first();
        let tail = spec_merge(rest, convs);
        lemma_merge_interleaves(rest, convs);
        assert(m.drop_first() =~= tail);
        assert(imps =~= seq![imps[0]] + rest);
        if rows_sorted(imps) && conversions_sorted(convs) {
            assert(rows_sorted(rest)) by {
                assert forall|i: int, j: int| 0 <= i <= j < rest.len() implies (#[trigger] rest[i]).timestamp <= (#[trigger] rest[j]).timestamp by {
                    assert(rest[i] == imps[i + 1] && rest[j] == imps[j + 1]);
                }
            }
            assert forall|i: int| 0 <= i < convs.len() implies imps[0].timestamp <= (#[trigger] convs[i]).timestamp by {
                assert(convs[0].timestamp <= convs[i].timestamp);
            }
            lemma_merge_lower_bound(rest, convs, imps[0].timestamp);
            assert forall|i: int, j: int| 0 <= i <= j < m.len() implies view_timestamp(#[trigger] m[i]) <= view_timestamp(#[trigger] m[j]) by {
                if i == 0 {
                    if j > 0 {
                        assert(m[j] == tail[j - 1]);
                    }
                } else {
                    assert(m[i] == tail[i - 1] && m[j] == tail[j - 1]);
                }
            }
        }
    }
}

} // verus!
