//! Reducing a snapshot to the records that match a search query.
use vstd::prelude::*;
use crate::record::{ProcessRecord, RecordView, views};
use crate::text::{
    lower_of,
    decimal,
    is_substring,
    lowercase_chars,
    chars_of,
    decimal_chars,
    contains_chars,
};

verus! {

/// A record matches a query when its lower-cased name contains the
/// lower-cased query, or its decimal pid contains the query.
pub open spec fn matches_query(r: RecordView, q: Seq<char>) -> bool {
    is_substring(lower_of(q), lower_of(r.name)) || is_substring(q, decimal(r.pid as nat))
}

/// The records of `s` that match `q`, in their order in `s`.
pub open spec fn filtered(s: Seq<RecordView>, q: Seq<char>) -> Seq<RecordView> {
    s.filter(|v: RecordView| matches_query(v, q))
}

/// Whether `record` matches a query given both as typed (`raw`) and
/// lower-cased (`lowered`).
pub fn record_matches(record: &ProcessRecord, raw: &Vec<char>, lowered: &Vec<char>) -> (r: bool)
    ensures
        r == (is_substring(lowered@, lower_of(record.name@)) || is_substring(
            raw@,
            decimal(record.pid as nat),
        )),
{
    let name = lowercase_chars(record.name.as_str());
    if contains_chars(&name, lowered) {
        return true;
    }
    let digits = decimal_chars(record.pid);
    contains_chars(&digits, raw)
}

/// The records of `records` that match `query`, in input order.
pub fn apply_filter(records: &Vec<ProcessRecord>, query: &str) -> (r: Vec<ProcessRecord>)
    ensures
        views(r@) == filtered(views(records@), query@),
{
    let raw = chars_of(query);
    let lowered = lowercase_chars(query);
    let ghost pred = |v: RecordView| matches_query(v, query@);
    let mut r: Vec<ProcessRecord> = Vec::new();
    let mut i: usize = 0;
    while i < records.len()
        invariant
            i <= records@.len(),
            raw@ == query@,
            lowered@ == lower_of(query@),
            pred == (|v: RecordView| matches_query(v, query@)),
            views(r@) == views(records@).subrange(0, i as int).filter(pred),
        decreases records@.len() - i,
    {
        let ghost before = views(r@);
        let keep = record_matches(&records[i], &raw, &lowered);
        if keep {
            r.push(records[i].duplicate());
            assert(views(r@) =~= before.push(records@[i as int]@));
        }
        proof {
            let s = views(records@);
            assert(s.subrange(0, i + 1).drop_last() =~= s.subrange(0, i as int));
            assert(s.subrange(0, i + 1).last() == records@[i as int]@);
            reveal(Seq::filter);
        }
        i = i + 1;
    }
    assert(views(records@).subrange(0, i as int) =~= views(records@));
    r
}

/// A raw scan without the record of process `pid`, in scan order.
pub open spec fn without_pid(s: Seq<RecordView>, pid: u32) -> Seq<RecordView> {
    s.filter(|v: RecordView| v.pid != pid)
}

/// Normalises a raw process scan: drops the record whose pid is
/// `exclude_pid` (the observing process itself) and keeps the rest in order.
pub fn normalize_snapshot(raw: &Vec<ProcessRecord>, exclude_pid: u32) -> (r: Vec<ProcessRecord>)
    ensures
        views(r@) == without_pid(views(raw@), exclude_pid),
{
    let ghost pred = |v: RecordView| v.pid != exclude_pid;
    let mut r: Vec<ProcessRecord> = Vec::new();
    let mut i: usize = 0;
    while i < raw.len()
        invariant
            i <= raw@.len(),
            pred == (|v: RecordView| v.pid != exclude_pid),
            views(r@) == views(raw@).subrange(0, i as int).filter(pred),
        decreases raw@.len() - i,
    {
        let ghost before = views(r@);
        if raw[i].pid != exclude_pid {
            r.push(raw[i].duplicate());
            assert(views(r@) =~= before.push(raw@[i as int]@));
        }
        proof {
            let s = views(raw@);
            assert(s.subrange(0, i + 1).drop_last() =~= s.subrange(0, i as int));
            assert(s.subrange(0, i + 1).last() == raw@[i as int]@);
            reveal(Seq::filter);
        }
        i = i + 1;
    }
    assert(views(raw@).subrange(0, i as int) =~= views(raw@));
    r
}

/// Every record kept by the filter matches the query.
pub proof fn lemma_filtered_records_match(s: Seq<RecordView>, q: Seq<char>)
    ensures
        forall|i: int|
            0 <= i < filtered(s, q).len() ==> matches_query(#[trigger] filtered(s, q)[i], q),
{
    assert forall|i: int| 0 <= i < filtered(s, q).len() implies matches_query(
        #[trigger] filtered(s, q)[i],
        q,
    ) by {
        s.lemma_filter_pred(|v: RecordView| matches_query(v, q), i);
    }
}

/// The empty query keeps every record, in order.
pub proof fn lemma_empty_query_is_identity(s: Seq<RecordView>)
    ensures
        filtered(s, Seq::<char>::empty()) == s,
    decreases s.len(),
{
    reveal(Seq::filter);
    if s.len() > 0 {
        lemma_empty_query_is_identity(s.drop_last());
        let d = decimal(s.last().pid as nat);
        let e = Seq::<char>::empty();
        assert(d.subrange(0, 0 + e.len() as int) =~= e);
        assert(is_substring(e, d));
        assert(matches_query(s.last(), Seq::<char>::empty()));
        assert(s.drop_last().push(s.last()) =~= s);
    }
}

} // verus!
