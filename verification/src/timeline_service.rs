use vstd::prelude::*;
use crate::auth_service::SessionKey;
use crate::calendar::{format_month, lemma_day_text_starts_with_month, month_text, valid_date};
use crate::crypto::CryptoProvider;
use crate::dto::TimelineGroup;
use crate::entities::{Note, NoteSummary, NoteView, RecordView, SummaryView, summary_views};
use crate::errors::DomainResult;
use crate::multiset_facts::{lemma_filter_map_from, lemma_filter_map_has};
use crate::note_service::{NoteService, all_decode, decodes_to, lemma_all_decode_same_multiset, note_views};
use crate::search_service::{decoded_note_is, summary_of, to_summary};
use crate::sorting::{sort_keyed_desc, sorted_desc};
use crate::store::{Database, record_views};
use crate::text::{lemma_text_lt_total, text_lt};

verus! {

broadcast use vstd::seq_lib::group_to_multiset_ensures;

/// Whether the timeline shows a note: it has a title, content, a done
/// mark or a mood.
pub open spec fn shown(n: NoteView) -> bool {
    n.title.len() > 0 || n.content.len() > 0 || n.is_done || n.mood is Some
}

/// The month of a note, written `YYYY-MM`.
pub open spec fn month_of(n: NoteView) -> Seq<char> {
    month_text(n.entry_date.year, n.entry_date.month)
}

/// The summaries of the shown notes of a month, in the notes' order.
pub open spec fn month_summaries(notes: Seq<NoteView>, m: Seq<char>) -> Seq<SummaryView> {
    notes.filter(|n: NoteView| shown(n) && month_of(n) == m).map_values(|n: NoteView| summary_of(n))
}

/// The timeline of a list of notes: one group per month that has a shown
/// note, latest month first, each holding the summaries of that month's
/// shown notes, latest day first.
pub open spec fn timeline_of(notes: Seq<NoteView>, groups: Seq<TimelineGroup>) -> bool {
    &&& forall|i: int, j: int| 0 <= i < j < groups.len() ==> text_lt((#[trigger] groups[j]).month@, (#[trigger] groups[i]).month@)
    &&& forall|i: int| 0 <= i < groups.len() ==> sorted_desc((#[trigger] groups[i]).entries@)
    &&& forall|i: int| 0 <= i < groups.len() ==> summary_views((#[trigger] groups[i]).entries@).to_multiset()
        == month_summaries(notes, groups[i].month@).to_multiset()
    &&& forall|i: int| 0 <= i < groups.len() ==> (#[trigger] groups[i]).entries@.len() > 0
    &&& forall|k: int| 0 <= k < notes.len() && shown(#[trigger] notes[k]) ==> exists|i: int| 0 <= i < groups.len() && (#[trigger] groups[i]).month@ == month_of(notes[k])
}

/// The timeline leaves out only empty notes: a note with a title, content,
/// a done mark or a mood has its summary in the group of its month.
pub proof fn lemma_timeline_shows_every_written_note(notes: Seq<NoteView>, groups: Seq<TimelineGroup>, k: int)
    requires
        timeline_of(notes, groups),
        0 <= k < notes.len(),
        notes[k].title.len() > 0 || notes[k].content.len() > 0 || notes[k].is_done || notes[k].mood is Some,
    ensures
        exists|i: int| 0 <= i < groups.len()
            && groups[i].month@ == month_text(notes[k].entry_date.year, notes[k].entry_date.month)
            && #[trigger] summary_views(groups[i].entries@).contains(summary_of(notes[k])),
{
    let n = notes[k];
    assert(shown(n));
    let i = choose|i: int| 0 <= i < groups.len() && (#[trigger] groups[i]).month@ == month_of(notes[k]);
    let m = groups[i].month@;
    let pred = |x: NoteView| shown(x) && month_of(x) == m;
    let f = |x: NoteView| summary_of(x);
    lemma_filter_map_has(notes, pred, f, k);
    let ms = month_summaries(notes, m);
    assert(ms == notes.filter(pred).map_values(f));
    assert(ms.to_multiset().count(summary_of(n)) > 0);
    let sv = summary_views(groups[i].entries@);
    assert(sv.to_multiset() == ms.to_multiset());
    assert(sv.contains(summary_of(n)));
}

/// Every entry of the timeline is the summary of a note written in the
/// group's month that has a title, content, a done mark or a mood.
pub proof fn lemma_timeline_entries_are_written_notes(notes: Seq<NoteView>, groups: Seq<TimelineGroup>, i: int, j: int)
    requires
        timeline_of(notes, groups),
        0 <= i < groups.len(),
        0 <= j < groups[i].entries@.len(),
    ensures
        exists|k: int| 0 <= k < notes.len() && (#[trigger] summary_of(notes[k])) == groups[i].entries@[j]@
            && (notes[k].title.len() > 0 || notes[k].content.len() > 0 || notes[k].is_done || notes[k].mood is Some)
            && month_text(notes[k].entry_date.year, notes[k].entry_date.month) == groups[i].month@,
{
    let m = groups[i].month@;
    let e = groups[i].entries@[j]@;
    let sv = summary_views(groups[i].entries@);
    assert(sv[j] == e);
    assert(sv.to_multiset().count(e) > 0);
    let pred = |x: NoteView| shown(x) && month_of(x) == m;
    let f = |x: NoteView| summary_of(x);
    let ms = month_summaries(notes, m);
    assert(ms == notes.filter(pred).map_values(f));
    assert(ms.contains(e));
    let k = lemma_filter_map_from(notes, pred, f, e);
    assert(pred(notes[k]));
}

/// Every note in a month's group was written in that month: its day, as
/// `YYYY-MM-DD`, starts with the group's `YYYY-MM`.
pub proof fn lemma_group_days_in_month(notes: Seq<NoteView>, groups: Seq<TimelineGroup>, i: int, j: int)
    requires
        timeline_of(notes, groups),
        0 <= i < groups.len(),
        0 <= j < groups[i].entries@.len(),
    ensures
        groups[i].month@.is_prefix_of(groups[i].entries@[j]@.entry_date),
{
    let g = groups[i];
    let m = g.month@;
    let e = g.entries@[j]@;
    let sv = summary_views(g.entries@);
    assert(sv[j] == e);
    assert(sv.contains(e));
    assert(sv.to_multiset().count(e) > 0);
    let pred = |n: NoteView| shown(n) && month_of(n) == m;
    let f = notes.filter(pred);
    let ms = month_summaries(notes, m);
    assert(ms == f.map_values(|n: NoteView| summary_of(n)));
    assert(ms.to_multiset().count(e) > 0);
    assert(ms.contains(e));
    let k = choose|k: int| 0 <= k < ms.len() && ms[k] == e;
    assert(ms[k] == summary_of(f[k]));
    assert(pred(f[k])) by {
        broadcast use vstd::seq_lib::group_filter_ensures;
    }
    lemma_day_text_starts_with_month(f[k].entry_date);
}

proof fn lemma_filter_none<A>(s: Seq<A>, p: spec_fn(A) -> bool)
    requires
        forall|j: int| 0 <= j < s.len() ==> !p(#[trigger] s[j]),
    ensures
        s.filter(p) == Seq::<A>::empty(),
    decreases s.len(),
{
    reveal(Seq::filter);
    if s.len() > 0 {
        assert forall|j: int| 0 <= j < s.drop_last().len() implies !p(#[trigger] s.drop_last()[j]) by {
            assert(s.drop_last()[j] == s[j]);
        }
        lemma_filter_none(s.drop_last(), p);
        assert(!p(s[s.len() - 1]));
    }
}

/// Groups the shown notes by month, latest month first.
pub struct TimelineService<C: CryptoProvider> {
    pub note_service: NoteService<C>,
}

/// The position of the group for a month.
fn find_group(groups: &Vec<TimelineGroup>, month: &String) -> (r: Option<usize>)
    ensures
        match r {
            Some(k) => k < groups@.len() && groups@[k as int].month@ == month@,
            None => forall|k: int| 0 <= k < groups@.len() ==> (#[trigger] groups@[k]).month@ != month@,
        },
{
    let mut k: usize = 0;
    while k < groups.len()
        invariant
            k <= groups@.len(),
            forall|j: int| 0 <= j < k ==> (#[trigger] groups@[j]).month@ != month@,
        decreases groups.len() - k,
    {
        if groups[k].month == *month {
            return Some(k);
        }
        k = k + 1;
    }
    None
}

/// Months strictly decrease along the groups.
pub open spec fn months_desc(g: Seq<TimelineGroup>) -> bool {
    forall|i: int, j: int| 0 <= i < j < g.len() ==> text_lt((#[trigger] g[j]).month@, (#[trigger] g[i]).month@)
}

/// How the groups stand after the first `notes.len()` notes: one group per
/// month with a shown note, latest month first, each holding its month's
/// summaries in the notes' order.
pub open spec fn grouped(notes: Seq<NoteView>, groups: Seq<TimelineGroup>) -> bool {
    &&& months_desc(groups)
    &&& forall|a: int| 0 <= a < groups.len() ==> summary_views((#[trigger] groups[a]).entries@) == month_summaries(notes, groups[a].month@)
    &&& forall|a: int| 0 <= a < groups.len() ==> (#[trigger] groups[a]).entries@.len() > 0
    &&& forall|k: int| 0 <= k < notes.len() && shown(#[trigger] notes[k]) ==> exists|a: int| 0 <= a < groups.len() && (#[trigger] groups[a]).month@ == month_of(notes[k])
}

proof fn lemma_month_summaries_push(t: Seq<NoteView>, n: NoteView, m: Seq<char>)
    ensures
        month_summaries(t.push(n), m) == if shown(n) && month_of(n) == m {
            month_summaries(t, m).push(summary_of(n))
        } else {
            month_summaries(t, m)
        },
{
    let p = |x: NoteView| shown(x) && month_of(x) == m;
    t.lemma_filter_push(n, p);
    let f = |x: NoteView| summary_of(x);
    assert(t.filter(p).push(n).map_values(f) =~= t.filter(p).map_values(f).push(summary_of(n)));
}

proof fn lemma_insert_group(g: Seq<TimelineGroup>, p: int, x: TimelineGroup)
    requires
        months_desc(g),
        0 <= p <= g.len(),
        forall|q: int| 0 <= q < p ==> text_lt(x.month@, (#[trigger] g[q]).month@),
        p < g.len() ==> text_lt(g[p].month@, x.month@),
    ensures
        months_desc(g.insert(p, x)),
{
    let t = g.insert(p, x);
    assert forall|i: int, j: int| 0 <= i < j < t.len() implies text_lt((#[trigger] t[j]).month@, (#[trigger] t[i]).month@) by {
        if i < p && j < p {
            assert(t[i] == g[i] && t[j] == g[j]);
        } else if i < p && j == p {
            assert(t[i] == g[i]);
        } else if i < p {
            assert(t[i] == g[i] && t[j] == g[j - 1]);
        } else if i == p {
            assert(t[j] == g[j - 1]);
            if j - 1 > p {
                crate::text::lemma_text_lt_transitive(g[j - 1].month@, g[p].month@, x.month@);
            }
        } else {
            assert(t[i] == g[i - 1] && t[j] == g[j - 1]);
        }
    }
}

/// The notes' shown ones, grouped by month, latest month first; within a
/// group in the notes' order.
fn group_by_month(notes: &Vec<Note>) -> (r: Vec<TimelineGroup>)
    requires
        forall|k: int| 0 <= k < notes@.len() ==> valid_date(#[trigger] notes@[k].entry_date),
    ensures
        grouped(note_views(notes@), r@),
{
    let ghost nv = note_views(notes@);
    let mut groups: Vec<TimelineGroup> = Vec::new();
    let mut i: usize = 0;
    while i < notes.len()
        invariant
            i <= notes@.len(),
            nv == note_views(notes@),
            forall|k: int| 0 <= k < notes@.len() ==> valid_date(#[trigger] notes@[k].entry_date),
            grouped(nv.take(i as int), groups@),
        decreases notes.len() - i,
    {
        let note = &notes[i];
        let ghost t = nv.take(i as int);
        let ghost n = note@;
        proof {
            assert(nv[i as int] == n);
            assert(nv.take(i + 1) =~= t.push(n));
            assert forall|m: Seq<char>| #[trigger] month_summaries(t.push(n), m) == (if shown(n) && month_of(n) == m {
                month_summaries(t, m).push(summary_of(n))
            } else {
                month_summaries(t, m)
            }) by {
                lemma_month_summaries_push(t, n, m);
            }
        }
        let show = !note.title.as_str().is_empty() || !note.content.as_str().is_empty() || note.is_done || note.mood.is_some();
        if show {
            let month = format_month(note.entry_date);
            let summary = to_summary(note);
            match find_group(&groups, &month) {
                Some(k) => {
                    let ghost before = groups@;
                    let mut g = groups.remove(k);
                    let ghost ge = summary_views(g.entries@);
                    g.entries.push(summary);
                    proof {
                        assert(summary_views(g.entries@) =~= ge.push(summary@));
                    }
                    groups.insert(k, g);
                    proof {
                        let after = groups@;
                        assert(after =~= before.update(k as int, g));
                        assert forall|a: int| 0 <= a < after.len() implies summary_views((#[trigger] after[a]).entries@) == month_summaries(t.push(n), after[a].month@) by {
                            if a != k {
                                assert(after[a] == before[a]);
                                if a < k {
                                    assert(text_lt(before[k as int].month@, before[a].month@));
                                } else {
                                    assert(text_lt(before[a].month@, before[k as int].month@));
                                }
                                if before[a].month@ == month_of(n) {
                                    crate::text::lemma_text_lt_irreflexive(month_of(n));
                                }
                            }
                        }
                        assert forall|q: int| 0 <= q < i + 1 && shown(#[trigger] nv.take(i + 1)[q]) implies exists|a: int| 0 <= a < after.len() && (#[trigger] after[a]).month@ == month_of(nv.take(i + 1)[q]) by {
                            if q < i {
                                assert(nv.take(i + 1)[q] == t[q]);
                                let a = choose|a: int| 0 <= a < before.len() && (#[trigger] before[a]).month@ == month_of(t[q]);
                                assert(after[a].month@ == before[a].month@);
                            } else {
                                assert(after[k as int].month@ == month_of(n));
                            }
                        }
                        assert forall|a: int, b: int| 0 <= a < b < after.len() implies text_lt((#[trigger] after[b]).month@, (#[trigger] after[a]).month@) by {
                            assert(after[a].month@ == before[a].month@);
                            assert(after[b].month@ == before[b].month@);
                        }
                        assert forall|a: int| 0 <= a < after.len() implies (#[trigger] after[a]).entries@.len() > 0 by {
                            if a != k {
                                assert(after[a] == before[a]);
                            }
                        }
                    }
                },
                None => {
                    let ghost before = groups@;
                    let mut p: usize = 0;
                    while p < groups.len() && crate::text::text_less(month.as_str(), groups[p].month.as_str())
                        invariant
                            p <= groups@.len(),
                            groups@ == before,
                            forall|q: int| 0 <= q < p ==> text_lt(month@, (#[trigger] groups@[q]).month@),
                        decreases groups.len() - p,
                    {
                        p = p + 1;
                    }
                    proof {
                        if p < groups@.len() {
                            lemma_text_lt_total(month@, groups@[p as int].month@);
                        }
                        // no earlier shown note of this month, else its group would exist
                        assert forall|q: int| 0 <= q < t.len() implies !(shown(#[trigger] t[q]) && month_of(t[q]) == month@) by {
                            if shown(t[q]) && month_of(t[q]) == month@ {
                                let a = choose|a: int| 0 <= a < before.len() && (#[trigger] before[a]).month@ == month_of(t[q]);
                                assert(before[a].month@ == month@);
                            }
                        }
                        lemma_filter_none(t, |x: NoteView| shown(x) && month_of(x) == month@);
                        assert(month_summaries(t, month@) =~= Seq::<SummaryView>::empty());
                    }
                    let mut entries: Vec<NoteSummary> = Vec::new();
                    entries.push(summary);
                    let g = TimelineGroup { month, entries };
                    proof {
                        assert(summary_views(g.entries@) =~= seq![summary@]);
                        assert(seq![summary@] =~= Seq::<SummaryView>::empty().push(summary_of(n)));
                        lemma_insert_group(before, p as int, g);
                    }
                    groups.insert(p, g);
                    proof {
                        let after = groups@;
                        assert(after =~= before.insert(p as int, g));
                        assert forall|a: int| 0 <= a < after.len() implies summary_views((#[trigger] after[a]).entries@) == month_summaries(t.push(n), after[a].month@) by {
                            if a < p {
                                assert(after[a] == before[a]);
                                assert(text_lt(month@, before[a].month@));
                                if before[a].month@ == month@ {
                                    crate::text::lemma_text_lt_irreflexive(month@);
                                }
                            } else if a > p {
                                assert(after[a] == before[a - 1]);
                            }
                        }
                        assert forall|q: int| 0 <= q < i + 1 && shown(#[trigger] nv.take(i + 1)[q]) implies exists|a: int| 0 <= a < after.len() && (#[trigger] after[a]).month@ == month_of(nv.take(i + 1)[q]) by {
                            if q < i {
                                assert(nv.take(i + 1)[q] == t[q]);
                                let a = choose|a: int| 0 <= a < before.len() && (#[trigger] before[a]).month@ == month_of(t[q]);
                                if a < p {
                                    assert(after[a] == before[a]);
                                } else {
                                    assert(after[a + 1] == before[a]);
                                }
                            } else {
                                assert(after[p as int].month@ == month_of(n));
                            }
                        }
                        assert forall|a: int| 0 <= a < after.len() implies (#[trigger] after[a]).entries@.len() > 0 by {
                            if a < p {
                                assert(after[a] == before[a]);
                            } else if a > p {
                                assert(after[a] == before[a - 1]);
                            }
                        }
                    }
                },
            }
        } else {
            proof {
                let after = groups@;
                assert forall|q: int| 0 <= q < i + 1 && shown(#[trigger] nv.take(i + 1)[q]) implies exists|a: int| 0 <= a < after.len() && (#[trigger] after[a]).month@ == month_of(nv.take(i + 1)[q]) by {
                    assert(nv.take(i + 1)[q] == t[q]);
                }
            }
        }
        i = i + 1;
    }
    proof {
        assert(nv.take(i as int) =~= nv);
    }
    groups
}

/// Sorts every group's entries, latest day first.
fn sort_entries(groups: Vec<TimelineGroup>) -> (r: Vec<TimelineGroup>)
    ensures
        r@.len() == groups@.len(),
        forall|a: int| 0 <= a < r@.len() ==> (#[trigger] r@[a]).month@ == groups@[a].month@
            && sorted_desc(r@[a].entries@)
            && summary_views(r@[a].entries@).to_multiset() == summary_views(groups@[a].entries@).to_multiset()
            && r@[a].entries@.len() == groups@[a].entries@.len(),
{
    let ghost orig = groups@;
    let mut input = groups;
    let mut out: Vec<TimelineGroup> = Vec::new();
    assert(input@ =~= orig.skip(0));
    while input.len() > 0
        invariant
            out@.len() + input@.len() == orig.len(),
            input@ == orig.skip(out@.len() as int),
            forall|a: int| 0 <= a < out@.len() ==> (#[trigger] out@[a]).month@ == orig[a].month@
                && sorted_desc(out@[a].entries@)
                && summary_views(out@[a].entries@).to_multiset() == summary_views(orig[a].entries@).to_multiset()
                && out@[a].entries@.len() == orig[a].entries@.len(),
        decreases input.len(),
    {
        let ghost k = out@.len() as int;
        let g = input.remove(0);
        proof {
            assert(g == orig[k]);
            assert(input@ =~= orig.skip(k + 1));
        }
        let ghost before = g.entries@;
        let entries = sort_keyed_desc(g.entries);
        proof {
            crate::multiset_facts::lemma_map_same_multiset(entries@, before, |s: NoteSummary| s@);
            assert(summary_views(entries@) =~= entries@.map_values(|s: NoteSummary| s@));
            assert(summary_views(before) =~= before.map_values(|s: NoteSummary| s@));
        }
        out.push(TimelineGroup { month: g.month, entries });
    }
    out
}

impl<C: CryptoProvider> TimelineService<C> {
    pub fn new(crypto: C) -> (r: Self)
        ensures
            r.note_service.crypto == crypto,
    {
        TimelineService { note_service: NoteService::new(crypto) }
    }

    /// Every shown note, grouped by month, latest month and day first.
    pub fn list_grouped(&self, db: &Database, session: &Option<SessionKey>) -> (r: DomainResult<Vec<TimelineGroup>>)
        requires
            db.wf(),
        ensures
            match session {
                None => r matches Err(e) && e is Locked,
                Some(k) => {
                    &&& r is Ok <== all_decode(self.note_service.crypto, db.notes@, k.0@)
                    &&& match r {
                        Ok(groups) => exists|listed: Seq<RecordView>, notes: Seq<NoteView>| {
                            &&& listed.to_multiset() == db.notes@.to_multiset()
                            &&& #[trigger] decodes_to(self.note_service.crypto, listed, k.0@, notes)
                            &&& timeline_of(notes, groups@)
                        },
                        Err(e) => e is Crypto && !all_decode(self.note_service.crypto, db.notes@, k.0@),
                    }
                },
            },
    {
        let records = db.notes.list_all();
        let ghost listed = record_views(records@);
        proof {
            lemma_all_decode_same_multiset(self.note_service.crypto, listed, db.notes@, session.unwrap().0@);
            assert forall|i: int| 0 <= i < listed.len() implies valid_date(#[trigger] listed[i].entry_date) by {
                assert(listed.to_multiset().count(listed[i]) > 0);
                assert(db.notes@.contains(listed[i]));
            }
        }
        let notes = self.note_service.decrypt_all(session, records)?;
        let ghost nv = note_views(notes@);
        proof {
            assert forall|k: int| 0 <= k < notes@.len() implies valid_date(#[trigger] notes@[k].entry_date) by {
                assert(decoded_note_is(self.note_service.crypto, listed, session.unwrap().0@, nv, k));
                assert(nv[k] == notes@[k]@);
            }
        }
        let groups = group_by_month(&notes);
        let ghost g0 = groups@;
        let sorted = sort_entries(groups);
        proof {
            let g = sorted@;
            assert forall|i: int, j: int| 0 <= i < j < g.len() implies text_lt((#[trigger] g[j]).month@, (#[trigger] g[i]).month@) by {
                assert(g[i].month@ == g0[i].month@);
                assert(g[j].month@ == g0[j].month@);
            }
            assert forall|i: int| 0 <= i < g.len() implies summary_views((#[trigger] g[i]).entries@).to_multiset()
                == month_summaries(nv, g[i].month@).to_multiset() by {
                assert(summary_views(g0[i].entries@) == month_summaries(nv, g0[i].month@));
            }
            assert forall|i: int| 0 <= i < g.len() implies (#[trigger] g[i]).entries@.len() > 0 by {
                assert(g0[i].entries@.len() > 0);
            }
            assert forall|k: int| 0 <= k < nv.len() && shown(#[trigger] nv[k]) implies exists|a: int| 0 <= a < g.len() && (#[trigger] g[a]).month@ == month_of(nv[k]) by {
                let a = choose|a: int| 0 <= a < g0.len() && (#[trigger] g0[a]).month@ == month_of(nv[k]);
                assert(g[a].month@ == g0[a].month@);
            }
            assert(timeline_of(nv, g));
            assert(decodes_to(self.note_service.crypto, listed, session.unwrap().0@, nv));
        }
        Ok(sorted)
    }
}

} // verus!
