//! The reader: a stateful fold over the action stream that validates
//! context rules and collects finished `Clock` records and group
//! definitions.
//!
//! The spec function [`read_step`] is the transition table: for each
//! action it says how the context and the store change, or which error
//! is reported; [`read_from`] folds it over a whole document.
//! `ClockStore::read` is verified against the fold.

use vstd::prelude::*;
use vstd::string::*;
use vstd::pervasive::VecAdditionalExecFns;

use crate::date::{spec_valid_date, Date};
use crate::err::{ClockErr, ErrType, ParseErr};
use crate::moment::{GMoment, Moment, STime};
use crate::tokenize::lex_lt;
use crate::parser::{
    next_action_at, lemma_next_action_bounds, perr_matches, ActionData, GAction, GActionData,
    GParseErr, Parser,
};

verus! {

/// A named list of job names, as a `$name[..]` definition gives it;
/// members keep their order and duplicates.
#[derive(Debug)]
pub struct Group {
    pub name: String,
    pub members: Vec<String>,
}

/// A finished record: a closed work interval with its job and the tags
/// that were set when it was opened.
#[derive(Debug, Clone)]
pub struct Clock {
    pub c_in: Moment,
    pub c_out: STime,
    pub job: String,
    pub tags: Vec<String>,
}

/// A half-open interval: clocked in, not yet out.
#[derive(Debug, Clone)]
pub struct Clockin {
    pub c_in: Moment,
    pub job: String,
    tags: Vec<String>,
}

/// The groups and records collected while reading documents.
#[derive(Debug)]
pub struct ClockStore {
    pub groups: Vec<Group>,
    pub clocks: Vec<Clock>,
}

/// The context threaded across one document's actions.
#[derive(Debug)]
pub struct ReadState {
    pub year: Option<i32>,
    pub date: Option<Date>,
    pub job: Option<String>,
    pub tags: Vec<String>,
    pub curr_in: Option<Clockin>,
}

/// A group as the specification sees it.
#[verifier::ext_equal]
pub struct GGroup {
    pub name: Seq<char>,
    pub members: Seq<Seq<char>>,
}

/// A half-open interval as the specification sees it.
#[verifier::ext_equal]
pub struct GClockin {
    pub c_in: GMoment,
    pub job: Seq<char>,
    pub tags: Seq<Seq<char>>,
}

/// A finished record as the specification sees it.
#[verifier::ext_equal]
pub struct GClock {
    pub c_in: GMoment,
    pub c_out: int,
    pub job: Seq<char>,
    pub tags: Seq<Seq<char>>,
}

/// The store as the specification sees it.
#[verifier::ext_equal]
pub struct GStore {
    pub groups: Seq<GGroup>,
    pub clocks: Seq<GClock>,
}

/// The context as the specification sees it.
#[verifier::ext_equal]
pub struct GReadState {
    pub year: Option<int>,
    pub date: Option<Date>,
    pub job: Option<Seq<char>>,
    pub tags: Seq<Seq<char>>,
    pub curr_in: Option<GClockin>,
}

impl View for Group {
    type V = GGroup;

    open spec fn view(&self) -> GGroup {
        GGroup { name: self.name@, members: self.members.deep_view() }
    }
}

impl View for Clockin {
    type V = GClockin;

    closed spec fn view(&self) -> GClockin {
        GClockin { c_in: self.c_in@, job: self.job@, tags: self.tags.deep_view() }
    }
}

impl View for Clock {
    type V = GClock;

    open spec fn view(&self) -> GClock {
        GClock { c_in: self.c_in@, c_out: self.c_out@, job: self.job@, tags: self.tags.deep_view() }
    }
}

impl View for ClockStore {
    type V = GStore;

    open spec fn view(&self) -> GStore {
        GStore {
            groups: Seq::new(self.groups@.len(), |i: int| self.groups@[i]@),
            clocks: Seq::new(self.clocks@.len(), |i: int| self.clocks@[i]@),
        }
    }
}

impl View for ReadState {
    type V = GReadState;

    open spec fn view(&self) -> GReadState {
        GReadState {
            year: match self.year {
                Some(y) => Some(y as int),
                None => None,
            },
            date: self.date,
            job: match self.job {
                Some(j) => Some(j@),
                None => None,
            },
            tags: self.tags.deep_view(),
            curr_in: match self.curr_in {
                Some(c) => Some(c@),
                None => None,
            },
        }
    }
}

/// The fresh context: nothing set, no tags, no open interval.
pub open spec fn init_read_state() -> GReadState {
    GReadState { year: None, date: None, job: None, tags: Seq::empty(), curr_in: None }
}

/// An error positioned at an action.
pub open spec fn act_err(a: GAction, etype: ErrType) -> GParseErr {
    GParseErr { line: a.line, col: a.col, etype }
}

/// Closing a half-open interval with a clock-out time.
pub open spec fn g_as_clock(c: GClockin, out: int) -> GClock {
    GClock { c_in: c.c_in, c_out: out, job: c.job, tags: c.tags }
}

/// The tag set with every occurrence of `t` removed, order kept.
pub open spec fn spec_remove_tag(tags: Seq<Seq<char>>, t: Seq<char>) -> Seq<Seq<char>> {
    tags.filter(|x: Seq<char>| x != t)
}

/// One step of the reader: how one action changes the context and the
/// store, or which error it reports.  A clock-in first closes any open
/// interval, so that dangling record is kept even when the date or job
/// check then fails.
pub open spec fn read_step(st: GReadState, store: GStore, a: GAction) -> (GStore, Result<
    GReadState,
    GParseErr,
>) {
    match a.ad {
        GActionData::Group(name, members) => (
            GStore { groups: store.groups.push(GGroup { name, members }), clocks: store.clocks },
            Ok(st),
        ),
        GActionData::ShortDate(d, m) => match st.year {
            None => (store, Err(act_err(a, ErrType::YearNotSet))),
            Some(y) => {
                if spec_valid_date(y, m, d) {
                    (
                        store,
                        Ok(
                            GReadState {
                                date: Some(Date { year: y as i32, month: m as u32, day: d as u32 }),
                                ..st
                            },
                        ),
                    )
                } else {
                    (store, Err(act_err(a, ErrType::DateNotValid)))
                }
            },
        },
        GActionData::LongDate(d, m, y) => {
            if spec_valid_date(y, m, d) {
                (
                    store,
                    Ok(
                        GReadState {
                            date: Some(Date { year: y as i32, month: m as u32, day: d as u32 }),
                            ..st
                        },
                    ),
                )
            } else {
                (store, Err(act_err(a, ErrType::DateNotValid)))
            }
        },
        GActionData::SetJob(j) => (store, Ok(GReadState { job: Some(j), ..st })),
        GActionData::SetYear(y) => (store, Ok(GReadState { year: Some(y), ..st })),
        GActionData::ClearTags => (store, Ok(GReadState { tags: Seq::empty(), ..st })),
        GActionData::ClearTag(t) => (
            store,
            Ok(GReadState { tags: spec_remove_tag(st.tags, t), ..st }),
        ),
        GActionData::Tag(t) => {
            if st.tags.contains(t) {
                (store, Ok(st))
            } else {
                (store, Ok(GReadState { tags: st.tags.push(t), ..st }))
            }
        },
        GActionData::Clockin(t) => {
            let store2 = match st.curr_in {
                Some(prev) => GStore {
                    groups: store.groups,
                    clocks: store.clocks.push(g_as_clock(prev, t)),
                },
                None => store,
            };
            match st.date {
                None => (store2, Err(act_err(a, ErrType::DateNotSet))),
                Some(d) => match st.job {
                    None => (store2, Err(act_err(a, ErrType::JobNotSet))),
                    Some(j) => (
                        store2,
                        Ok(
                            GReadState {
                                curr_in: Some(
                                    GClockin {
                                        c_in: GMoment { d, t },
                                        job: j,
                                        tags: st.tags,
                                    },
                                ),
                                ..st
                            },
                        ),
                    ),
                },
            }
        },
        GActionData::Clockout(t) => match st.curr_in {
            None => (store, Err(act_err(a, ErrType::ClockinNotSet))),
            Some(c) => (
                GStore { groups: store.groups, clocks: store.clocks.push(g_as_clock(c, t)) },
                Ok(GReadState { curr_in: None, ..st }),
            ),
        },
        GActionData::End => (store, Ok(st)),
    }
}

/// Folding the whole document from position `pos`: actions are applied
/// in order until the end of input, the first error aborting with the
/// store as the steps so far left it.
pub open spec fn read_from(s: Seq<char>, pos: int, st: GReadState, store: GStore) -> (GStore,
Result<GReadState, GParseErr>)
    decreases s.len() - pos when 0 <= pos <= s.len() via read_from_decreases
{
    match next_action_at(s, pos) {
        Err(e) => (store, Err(e)),
        Ok((a, end)) => {
            if a.ad is End {
                (store, Ok(st))
            } else {
                let (store2, r) = read_step(st, store, a);
                match r {
                    Err(e) => (store2, Err(e)),
                    Ok(st2) => read_from(s, end, st2, store2),
                }
            }
        },
    }
}

#[via_fn]
proof fn read_from_decreases(s: Seq<char>, pos: int, st: GReadState, store: GStore) {
    if 0 <= pos <= s.len() {
        lemma_next_action_bounds(s, pos);
    }
}

impl Clockin {
    /// Closes the interval as a finished record with the given
    /// clock-out time.
    pub fn as_clock(self, c_out: STime) -> (r: Clock)
        ensures
            r@ == g_as_clock(self@, c_out@),
    {
        Clock { c_in: self.c_in, c_out, job: self.job, tags: self.tags }
    }

}

impl ReadState {
    pub fn new() -> (r: ReadState)
        ensures
            r@ == init_read_state(),
    {
        let r = ReadState { year: None, date: None, job: None, tags: Vec::new(), curr_in: None };
        proof {
            assert(r@ =~= init_read_state());
        }
        r
    }
}

/// An element-wise copy of a tag list.
fn clone_tags(v: &Vec<String>) -> (r: Vec<String>)
    ensures
        r.deep_view() == v.deep_view(),
{
    let mut r: Vec<String> = Vec::new();
    let mut i: usize = 0;
    while i < v.len()
        invariant
            i <= v.len(),
            r.deep_view() =~= v.deep_view().subrange(0, i as int),
        decreases v.len() - i,
    {
        let ghost before = r.deep_view();
        r.push(v[i].clone());
        proof {
            assert(r.deep_view() =~= before.push(v@[i as int]@));
            assert(before.push(v@[i as int]@) =~= v.deep_view().subrange(0, i as int + 1));
        }
        i = i + 1;
    }
    proof {
        assert(v.deep_view().subrange(0, v@.len() as int) =~= v.deep_view());
    }
    r
}

/// Whether the tag is already set.
fn tags_contain(tags: &Vec<String>, t: &String) -> (r: bool)
    ensures
        r == tags.deep_view().contains(t@),
{
    let mut i: usize = 0;
    while i < tags.len()
        invariant
            i <= tags.len(),
            forall|j: int| 0 <= j < i ==> tags.deep_view()[j] != t@,
        decreases tags.len() - i,
    {
        if tags[i].eq(t) {
            proof {
                assert(tags.deep_view()[i as int] == t@);
            }
            return true;
        }
        i = i + 1;
    }
    proof {
        assert(!tags.deep_view().contains(t@)) by {
            if tags.deep_view().contains(t@) {
                let j = choose|j: int|
                    0 <= j < tags.deep_view().len() && tags.deep_view()[j] == t@;
                assert(tags.deep_view()[j] != t@);
            }
        }
    }
    false
}

/// The tag list with every occurrence of `t` removed, order kept.
fn remove_tag(tags: &Vec<String>, t: &String) -> (r: Vec<String>)
    ensures
        r.deep_view() == spec_remove_tag(tags.deep_view(), t@),
{
    let mut kept: Vec<String> = Vec::new();
    let mut i: usize = 0;
    while i < tags.len()
        invariant
            i <= tags.len(),
            kept.deep_view() =~= spec_remove_tag(tags.deep_view().subrange(0, i as int), t@),
        decreases tags.len() - i,
    {
        let ghost pre = tags.deep_view().subrange(0, i as int);
        let ghost ext = tags.deep_view().subrange(0, i as int + 1);
        proof {
            assert(ext.drop_last() =~= pre);
            assert(ext.last() == tags.deep_view()[i as int]);
            reveal(Seq::filter);
        }
        if !tags[i].eq(t) {
            let ghost before = kept.deep_view();
            kept.push(tags[i].clone());
            proof {
                assert(kept.deep_view() =~= before.push(tags.deep_view()[i as int]));
            }
        }
        i = i + 1;
    }
    proof {
        assert(tags.deep_view().subrange(0, tags@.len() as int) =~= tags.deep_view());
    }
    kept
}

impl ClockStore {
    pub fn new() -> (r: ClockStore)
        ensures
            r@.groups == Seq::<GGroup>::empty(),
            r@.clocks == Seq::<GClock>::empty(),
    {
        let r = ClockStore { groups: Vec::new(), clocks: Vec::new() };
        proof {
            assert(r@.groups =~= Seq::<GGroup>::empty());
            assert(r@.clocks =~= Seq::<GClock>::empty());
        }
        r
    }

    /// Reads one document into the store: every action is applied in
    /// order, as [`read_from`] folds them, and the final context is
    /// returned; the first error aborts the read, the store keeping
    /// what the completed steps added to it.
    pub fn read(&mut self, s: &str) -> (r: Result<ReadState, ParseErr>)
        requires
            s@.len() < usize::MAX,
        ensures
            ({
                let (gstore, res) = read_from(s@, 0, init_read_state(), old(self)@);
                &&& final(self)@ == gstore
                &&& match (r, res) {
                    (Ok(rs), Ok(g)) => rs@ == g,
                    (Err(e), Err(ge)) => perr_matches(e, ge),
                    _ => false,
                }
            }),
    {
        let mut p = Parser::new(s);
        let mut rs = ReadState::new();
        loop
            invariant
                p.wf(),
                p.src() == s@,
                s@.len() < usize::MAX,
                0 <= p.stream_pos() <= s@.len(),
                read_from(s@, 0, init_read_state(), old(self)@) == read_from(
                    s@,
                    p.stream_pos(),
                    rs@,
                    self@,
                ),
            decreases s@.len() - p.stream_pos(),
        {
            let ghost pp = p.stream_pos();
            let ghost st0 = rs@;
            let ghost store0 = self@;
            proof {
                lemma_next_action_bounds(s@, pp);
            }
            let action = match p.next_action() {
                Ok(a) => a,
                Err(e) => {
                    return Err(e);
                },
            };
            let ghost ga = next_action_at(s@, pp)->Ok_0.0;
            let ghost end = next_action_at(s@, pp)->Ok_0.1;
            let aline = action.line;
            let acol = action.col;
            match action.ad {
                ActionData::Group(name, members) => {
                    let ghost gn = name@;
                    let ghost gm = members.deep_view();
                    self.groups.push(Group { name, members });
                    proof {
                        assert(self@.groups =~= store0.groups.push(GGroup { name: gn, members: gm }));
                        assert(self@.clocks =~= store0.clocks);
                    }
                },
                ActionData::ShortDate(dd, mm) => match rs.year {
                    Some(yr) => match Date::from_ymd_opt(yr, mm, dd) {
                        Some(d) => {
                            rs.date = Some(d);
                            proof {
                                assert(rs@ =~= GReadState { date: Some(d), ..st0 });
                            }
                        },
                        None => {
                            return Err(ParseErr { line: aline, col: acol, etype: ErrType::DateNotValid });
                        },
                    },
                    None => {
                        return Err(ParseErr { line: aline, col: acol, etype: ErrType::YearNotSet });
                    },
                },
                ActionData::LongDate(dd, mm, yy) => match Date::from_ymd_opt(yy, mm, dd) {
                    Some(d) => {
                        rs.date = Some(d);
                        proof {
                            assert(rs@ =~= GReadState { date: Some(d), ..st0 });
                        }
                    },
                    None => {
                        return Err(ParseErr { line: aline, col: acol, etype: ErrType::DateNotValid });
                    },
                },
                ActionData::SetJob(j) => {
                    rs.job = Some(j.to_owned());
                    proof {
                        assert(rs@ =~= GReadState { job: Some(j@), ..st0 });
                    }
                },
                ActionData::SetYear(yr) => {
                    rs.year = Some(yr);
                    proof {
                        assert(rs@ =~= GReadState { year: Some(yr as int), ..st0 });
                    }
                },
                ActionData::ClearTags => {
                    rs.tags = Vec::new();
                    proof {
                        assert(rs@.tags =~= Seq::<Seq<char>>::empty());
                        assert(rs@ =~= GReadState { tags: Seq::empty(), ..st0 });
                    }
                },
                ActionData::ClearTag(t) => {
                    let towned = t.to_owned();
                    rs.tags = remove_tag(&rs.tags, &towned);
                    proof {
                        assert(rs@ =~= GReadState { tags: spec_remove_tag(st0.tags, t@), ..st0 });
                    }
                },
                ActionData::Tag(t) => {
                    let towned = t.to_owned();
                    if !tags_contain(&rs.tags, &towned) {
                        let ghost before = rs.tags.deep_view();
                        rs.tags.push(towned);
                        proof {
                            assert(rs.tags.deep_view() =~= before.push(t@));
                            assert(rs@ =~= GReadState { tags: st0.tags.push(t@), ..st0 });
                        }
                    }
                },
                ActionData::Clockin(t) => {
                    match rs.curr_in.take() {
                        Some(last) => {
                            let ghost glast = last@;
                            self.clocks.push(last.as_clock(t));
                            proof {
                                assert(self@.clocks =~= store0.clocks.push(g_as_clock(glast, t@)));
                                assert(self@.groups =~= store0.groups);
                            }
                        },
                        None => {},
                    };
                    let d = match rs.date {
                        Some(d) => d,
                        None => {
                            return Err(ParseErr { line: aline, col: acol, etype: ErrType::DateNotSet });
                        },
                    };
                    let j = match &rs.job {
                        Some(j) => j.clone(),
                        None => {
                            return Err(ParseErr { line: aline, col: acol, etype: ErrType::JobNotSet });
                        },
                    };
                    let snapshot = clone_tags(&rs.tags);
                    rs.curr_in = Some(Clockin { c_in: Moment { t, d }, job: j, tags: snapshot });
                    proof {
                        assert(rs@ =~= GReadState {
                            curr_in: Some(
                                GClockin {
                                    c_in: GMoment { d, t: t@ },
                                    job: st0.job->0,
                                    tags: st0.tags,
                                },
                            ),
                            ..st0
                        });
                    }
                },
                ActionData::Clockout(t) => match rs.curr_in.take() {
                    Some(iv) => {
                        let ghost giv = iv@;
                        self.clocks.push(iv.as_clock(t));
                        proof {
                            assert(self@.clocks =~= store0.clocks.push(g_as_clock(giv, t@)));
                            assert(self@.groups =~= store0.groups);
                            assert(rs@ =~= GReadState { curr_in: None, ..st0 });
                        }
                    },
                    None => {
                        return Err(ParseErr { line: aline, col: acol, etype: ErrType::ClockinNotSet });
                    },
                },
                ActionData::End => {
                    return Ok(rs);
                },
            }
            proof {
                assert(read_step(st0, store0, ga).0 =~= self@);
                assert(read_step(st0, store0, ga).1 == Ok::<GReadState, GParseErr>(rs@));
                assert(read_from(s@, pp, st0, store0) == read_from(s@, end, rs@, self@));
            }
        }
    }
}

/// The per-job totals, keyed by job name in the order the jobs first
/// appear.
#[derive(Debug)]
pub struct TimeMap {
    entries: Vec<(String, STime)>,
}

/// The entry list as the specification sees it.
pub open spec fn entries_view(entries: Seq<(String, STime)>) -> Seq<(Seq<char>, int)> {
    Seq::new(entries.len(), |i: int| (entries[i].0@, entries[i].1@))
}

impl View for TimeMap {
    type V = Seq<(Seq<char>, int)>;

    closed spec fn view(&self) -> Seq<(Seq<char>, int)> {
        entries_view(self.entries@)
    }
}

/// Adds minutes to a job's total; the job's entry takes them, and an
/// unknown job is inserted where the key order puts it, so the keys
/// stay sorted, as the totals are printed.
pub open spec fn spec_add_minutes(m: Seq<(Seq<char>, int)>, job: Seq<char>, inc: int) -> Seq<
    (Seq<char>, int),
>
    decreases m.len(),
{
    if m.len() == 0 {
        seq![(job, inc)]
    } else if m[0].0 == job {
        seq![(m[0].0, m[0].1 + inc)] + m.drop_first()
    } else if lex_lt(job, m[0].0) {
        seq![(job, inc)] + m
    } else {
        seq![m[0]] + spec_add_minutes(m.drop_first(), job, inc)
    }
}

/// The per-job minute totals of the records in order, or the first
/// record whose clock-out is earlier than its clock-in.
pub open spec fn spec_time_map(clocks: Seq<GClock>, acc: Seq<(Seq<char>, int)>) -> Result<
    Seq<(Seq<char>, int)>,
    GClock,
>
    decreases clocks.len(),
{
    if clocks.len() == 0 {
        Ok(acc)
    } else {
        let c = clocks[0];
        if c.c_in.t > c.c_out {
            Err(c)
        } else {
            spec_time_map(clocks.drop_first(), spec_add_minutes(acc, c.job, c.c_out - c.c_in.t))
        }
    }
}

/// Every entry's total fits a `u32` minute count.
pub open spec fn fits_u32(m: Seq<(Seq<char>, int)>) -> bool {
    forall|q: int| 0 <= q < m.len() ==> (#[trigger] m[q]).1 <= u32::MAX
}

/// Every total of every prefix of the records fits a `u32` minute
/// count: the machine limit under which the sums are computed.
pub open spec fn totals_fit(clocks: Seq<GClock>) -> bool {
    forall|k: int|
        0 <= k <= clocks.len() ==> match spec_time_map(
            #[trigger] clocks.subrange(0, k),
            Seq::empty(),
        ) {
            Ok(m) => fits_u32(m),
            Err(_) => true,
        }
}

/// The total recorded for a job: the first entry with that name.
pub open spec fn spec_lookup(m: Seq<(Seq<char>, int)>, job: Seq<char>) -> Option<int>
    decreases m.len(),
{
    if m.len() == 0 {
        None
    } else if m[0].0 == job {
        Some(m[0].1)
    } else {
        spec_lookup(m.drop_first(), job)
    }
}

proof fn lemma_time_map_snoc(pre: Seq<GClock>, c: GClock, acc: Seq<(Seq<char>, int)>)
    ensures
        spec_time_map(pre.push(c), acc) == (match spec_time_map(pre, acc) {
            Ok(m) => {
                if c.c_in.t > c.c_out {
                    Err::<Seq<(Seq<char>, int)>, GClock>(c)
                } else {
                    Ok::<Seq<(Seq<char>, int)>, GClock>(
                        spec_add_minutes(m, c.job, c.c_out - c.c_in.t),
                    )
                }
            },
            Err(e) => Err::<Seq<(Seq<char>, int)>, GClock>(e),
        }),
    decreases pre.len(),
{
    if pre.len() == 0 {
        assert(pre.push(c) =~= seq![c]);
        assert(seq![c].drop_first() =~= Seq::<GClock>::empty());
        assert(spec_time_map(pre, acc) == Ok::<Seq<(Seq<char>, int)>, GClock>(acc));
        if c.c_in.t > c.c_out {
            assert(spec_time_map(seq![c], acc) == Err::<Seq<(Seq<char>, int)>, GClock>(c));
        } else {
            let acc1 = spec_add_minutes(acc, c.job, c.c_out - c.c_in.t);
            assert(spec_time_map(seq![c], acc) == spec_time_map(
                Seq::<GClock>::empty(),
                acc1,
            ));
            assert(spec_time_map(Seq::<GClock>::empty(), acc1) == Ok::<
                Seq<(Seq<char>, int)>,
                GClock,
            >(acc1));
        }
    } else {
        let c0 = pre[0];
        assert(pre.push(c)[0] == c0);
        if c0.c_in.t > c0.c_out {
            assert(spec_time_map(pre.push(c), acc) == Err::<Seq<(Seq<char>, int)>, GClock>(c0));
            assert(spec_time_map(pre, acc) == Err::<Seq<(Seq<char>, int)>, GClock>(c0));
        } else {
            let acc1 = spec_add_minutes(acc, c0.job, c0.c_out - c0.c_in.t);
            assert(pre.push(c).drop_first() =~= pre.drop_first().push(c));
            assert(spec_time_map(pre.push(c), acc) == spec_time_map(
                pre.drop_first().push(c),
                acc1,
            ));
            assert(spec_time_map(pre, acc) == spec_time_map(pre.drop_first(), acc1));
            lemma_time_map_snoc(pre.drop_first(), c, acc1);
        }
    }
}

proof fn lemma_add_minutes_found(m: Seq<(Seq<char>, int)>, job: Seq<char>, inc: int, idx: int)
    requires
        0 <= idx < m.len(),
        m[idx].0 == job,
        forall|j: int| 0 <= j < idx ==> m[j].0 != job && !lex_lt(job, (#[trigger] m[j]).0),
    ensures
        spec_add_minutes(m, job, inc) =~= m.update(idx, (job, m[idx].1 + inc)),
    decreases idx,
{
    if idx == 0 {
        assert(seq![(m[0].0, m[0].1 + inc)] + m.drop_first() =~= m.update(0, (job, m[0].1 + inc)));
    } else {
        lemma_add_minutes_found(m.drop_first(), job, inc, idx - 1);
        assert(seq![m[0]] + m.drop_first().update(idx - 1, (job, m[idx].1 + inc)) =~= m.update(
            idx,
            (job, m[idx].1 + inc),
        ));
    }
}

proof fn lemma_lex_lt_irrefl(a: Seq<char>)
    ensures
        !lex_lt(a, a),
    decreases a.len(),
{
    if a.len() > 0 {
        lemma_lex_lt_irrefl(a.drop_first());
    }
}

proof fn lemma_lex_lt_trans(a: Seq<char>, b: Seq<char>, c: Seq<char>)
    requires
        lex_lt(a, b),
        lex_lt(b, c),
    ensures
        lex_lt(a, c),
    decreases a.len(),
{
    if a.len() > 0 && b.len() > 0 && c.len() > 0 && a[0] == b[0] && b[0] == c[0] {
        lemma_lex_lt_trans(a.drop_first(), b.drop_first(), c.drop_first());
    }
}

proof fn lemma_lex_lt_connected(a: Seq<char>, b: Seq<char>)
    requires
        a != b,
    ensures
        lex_lt(a, b) || lex_lt(b, a),
    decreases a.len(),
{
    if a.len() == 0 && b.len() == 0 {
        assert(a =~= b);
    } else if a.len() > 0 && b.len() > 0 && a[0] == b[0] {
        let a1 = a.drop_first();
        let b1 = b.drop_first();
        if a1 == b1 {
            assert(a1.len() == b1.len());
            assert forall|k: int| 0 <= k < a.len() implies a[k] == b[k] by {
                if k > 0 {
                    assert(a[k] == a1[k - 1]);
                    assert(b[k] == b1[k - 1]);
                }
            }
            assert(a =~= b);
        } else {
            lemma_lex_lt_connected(a1, b1);
        }
    }
}

/// The map's keys are in strictly increasing order.
pub open spec fn key_sorted(m: Seq<(Seq<char>, int)>) -> bool {
    forall|i: int, j: int| 0 <= i < j < m.len() ==> lex_lt(m[i].0, m[j].0)
}

proof fn lemma_add_minutes_lower_bound(
    m: Seq<(Seq<char>, int)>,
    job: Seq<char>,
    inc: int,
    lo: Seq<char>,
)
    requires
        forall|j: int| 0 <= j < m.len() ==> lex_lt(lo, (#[trigger] m[j]).0),
        lex_lt(lo, job),
    ensures
        forall|k: int|
            0 <= k < spec_add_minutes(m, job, inc).len() ==> lex_lt(
                lo,
                (#[trigger] spec_add_minutes(m, job, inc)[k]).0,
            ),
    decreases m.len(),
{
    let r = spec_add_minutes(m, job, inc);
    if m.len() == 0 {
        assert(r[0].0 == job);
    } else if m[0].0 == job {
        assert forall|k: int| 0 <= k < r.len() implies lex_lt(lo, r[k].0) by {
            if k == 0 {
                assert(lex_lt(lo, m[0].0));
            } else {
                assert(r[k] == m[k]);
                assert(lex_lt(lo, m[k].0));
            }
        }
    } else if lex_lt(job, m[0].0) {
        assert forall|k: int| 0 <= k < r.len() implies lex_lt(lo, r[k].0) by {
            if k > 0 {
                assert(r[k] == m[k - 1]);
                assert(lex_lt(lo, m[k - 1].0));
            }
        }
    } else {
        lemma_add_minutes_lower_bound(m.drop_first(), job, inc, lo);
        let rr = spec_add_minutes(m.drop_first(), job, inc);
        assert forall|k: int| 0 <= k < r.len() implies lex_lt(lo, r[k].0) by {
            if k == 0 {
                assert(lex_lt(lo, m[0].0));
            } else {
                assert(r[k] == rr[k - 1]);
            }
        }
    }
}

proof fn lemma_add_minutes_sorted(m: Seq<(Seq<char>, int)>, job: Seq<char>, inc: int)
    requires
        key_sorted(m),
    ensures
        key_sorted(spec_add_minutes(m, job, inc)),
    decreases m.len(),
{
    let r = spec_add_minutes(m, job, inc);
    if m.len() == 0 {
    } else if m[0].0 == job {
        assert forall|i: int, j: int| 0 <= i < j < r.len() implies lex_lt(r[i].0, r[j].0) by {
            assert(r[i].0 == m[i].0);
            assert(r[j].0 == m[j].0);
        }
    } else if lex_lt(job, m[0].0) {
        assert forall|i: int, j: int| 0 <= i < j < r.len() implies lex_lt(r[i].0, r[j].0) by {
            assert(r[j].0 == m[j - 1].0);
            if i == 0 {
                if j > 1 {
                    lemma_lex_lt_trans(job, m[0].0, m[j - 1].0);
                }
            } else {
                assert(r[i].0 == m[i - 1].0);
            }
        }
    } else {
        assert(key_sorted(m.drop_first())) by {
            assert(forall|i: int, j: int|
                0 <= i < j < m.drop_first().len() ==> m.drop_first()[i] == m[i + 1]
                    && m.drop_first()[j] == m[j + 1]);
        }
        lemma_add_minutes_sorted(m.drop_first(), job, inc);
        let rr = spec_add_minutes(m.drop_first(), job, inc);
        assert(lex_lt(m[0].0, job)) by {
            lemma_lex_lt_connected(m[0].0, job);
        }
        lemma_add_minutes_lower_bound(m.drop_first(), job, inc, m[0].0);
        assert forall|i: int, j: int| 0 <= i < j < r.len() implies lex_lt(r[i].0, r[j].0) by {
            assert(r[j] == rr[j - 1]);
            if i > 0 {
                assert(r[i] == rr[i - 1]);
            }
        }
    }
}

/// Law: the per-job totals carry their keys in strictly increasing
/// order, whatever the records were, so the aggregated output is
/// deterministic.
pub proof fn lemma_time_map_sorted(clocks: Seq<GClock>, acc: Seq<(Seq<char>, int)>)
    requires
        key_sorted(acc),
    ensures
        match spec_time_map(clocks, acc) {
            Ok(m) => key_sorted(m),
            Err(_) => true,
        },
    decreases clocks.len(),
{
    if clocks.len() > 0 {
        let c = clocks[0];
        if !(c.c_in.t > c.c_out) {
            lemma_add_minutes_sorted(acc, c.job, c.c_out - c.c_in.t);
            lemma_time_map_sorted(
                clocks.drop_first(),
                spec_add_minutes(acc, c.job, c.c_out - c.c_in.t),
            );
        }
    }
}

proof fn lemma_add_minutes_insert(m: Seq<(Seq<char>, int)>, job: Seq<char>, inc: int, idx: int)
    requires
        0 <= idx <= m.len(),
        forall|j: int| 0 <= j < idx ==> m[j].0 != job && !lex_lt(job, (#[trigger] m[j]).0),
        idx < m.len() ==> lex_lt(job, m[idx].0),
    ensures
        spec_add_minutes(m, job, inc) =~= m.insert(idx, (job, inc)),
    decreases m.len(),
{
    if idx == 0 {
        if m.len() == 0 {
            assert(seq![(job, inc)] =~= m.insert(0, (job, inc)));
        } else {
            lemma_lex_lt_irrefl(job);
            assert(m[0].0 != job);
            assert(seq![(job, inc)] + m =~= m.insert(0, (job, inc)));
        }
    } else {
        lemma_add_minutes_insert(m.drop_first(), job, inc, idx - 1);
        assert(seq![m[0]] + m.drop_first().insert(idx - 1, (job, inc)) =~= m.insert(
            idx,
            (job, inc),
        ));
    }
}

proof fn lemma_lookup_found(m: Seq<(Seq<char>, int)>, job: Seq<char>, idx: int)
    requires
        0 <= idx < m.len(),
        m[idx].0 == job,
        forall|j: int| 0 <= j < idx ==> m[j].0 != job,
    ensures
        spec_lookup(m, job) == Some(m[idx].1),
    decreases idx,
{
    if idx > 0 {
        lemma_lookup_found(m.drop_first(), job, idx - 1);
    }
}

proof fn lemma_lookup_absent(m: Seq<(Seq<char>, int)>, job: Seq<char>)
    requires
        forall|j: int| 0 <= j < m.len() ==> m[j].0 != job,
    ensures
        spec_lookup(m, job) is None,
    decreases m.len(),
{
    if m.len() > 0 {
        lemma_lookup_absent(m.drop_first(), job);
    }
}

/// A field-wise copy of a record.
fn clone_clock(c: &Clock) -> (r: Clock)
    ensures
        r@ == c@,
{
    let r = Clock {
        c_in: c.c_in,
        c_out: c.c_out,
        job: c.job.clone(),
        tags: clone_tags(&c.tags),
    };
    proof {
        assert(r@ =~= c@);
    }
    r
}

proof fn lemma_time_map_split(clocks: Seq<GClock>, i: int, acc: Seq<(Seq<char>, int)>)
    requires
        0 <= i <= clocks.len(),
    ensures
        spec_time_map(clocks, acc) == (match spec_time_map(clocks.subrange(0, i), acc) {
            Ok(m) => spec_time_map(clocks.subrange(i, clocks.len() as int), m),
            Err(e) => Err::<Seq<(Seq<char>, int)>, GClock>(e),
        }),
    decreases i,
{
    if i == 0 {
        assert(clocks.subrange(0, 0) =~= Seq::<GClock>::empty());
        assert(clocks.subrange(0, clocks.len() as int) =~= clocks);
    } else {
        let c0 = clocks[0];
        assert(clocks.subrange(0, i)[0] == c0);
        if !(c0.c_in.t > c0.c_out) {
            let acc1 = spec_add_minutes(acc, c0.job, c0.c_out - c0.c_in.t);
            assert(clocks.subrange(0, i).drop_first() =~= clocks.drop_first().subrange(0, i - 1));
            assert(clocks.subrange(i, clocks.len() as int) =~= clocks.drop_first().subrange(
                i - 1,
                clocks.drop_first().len() as int,
            ));
            lemma_time_map_split(clocks.drop_first(), i - 1, acc1);
        }
    }
}

impl TimeMap {
    /// How many jobs have recorded time.
    pub fn len(&self) -> (n: usize)
        ensures
            n == self@.len(),
    {
        self.entries.len()
    }

    /// The total recorded for a job, as [`spec_lookup`] finds it.
    pub fn get(&self, job: &str) -> (r: Option<STime>)
        ensures
            match (r, spec_lookup(self@, job@)) {
                (Some(t), Some(v)) => t@ == v,
                (None, None) => true,
                _ => false,
            },
    {
        let mut i: usize = 0;
        while i < self.entries.len()
            invariant
                i <= self.entries.len(),
                forall|j: int| 0 <= j < i ==> self@[j].0 != job@,
            decreases self.entries.len() - i,
        {
            if crate::tokenize::str_eq(self.entries[i].0.as_str(), job) {
                proof {
                    lemma_lookup_found(self@, job@, i as int);
                }
                return Some(self.entries[i].1);
            }
            i = i + 1;
        }
        proof {
            lemma_lookup_absent(self@, job@);
        }
        None
    }

    /// The name of the `i`-th job, in first-appearance order.
    pub fn job_at(&self, i: usize) -> (r: &String)
        requires
            i < self@.len(),
        ensures
            r@ == self@[i as int].0,
    {
        &self.entries[i].0
    }

    /// The total of the `i`-th job.
    pub fn total_at(&self, i: usize) -> (r: STime)
        requires
            i < self@.len(),
        ensures
            r@ == self@[i as int].1,
    {
        self.entries[i].1
    }
}

impl ClockStore {
    /// Sums the recorded minutes per job, walking the records in
    /// order; the first record whose clock-out is earlier than its
    /// clock-in aborts the sum, carried out in the error.  The totals
    /// must fit the minute counter, as [`totals_fit`] states.
    pub fn as_time_map(self) -> (r: Result<TimeMap, ClockErr>)
        requires
            totals_fit(self@.clocks),
        ensures
            match (r, spec_time_map(self@.clocks, Seq::empty())) {
                (Ok(tm), Ok(gm)) => tm@ == gm && key_sorted(tm@),
                (Err(e), Err(gc)) => e.clock@ == gc && e.etype == crate::err::ClockErrType::OutBeforeIn,
                _ => false,
            },
    {
        let ghost gclocks = self@.clocks;
        proof {
            lemma_time_map_sorted(gclocks, Seq::empty());
        }
        let mut entries: Vec<(String, STime)> = Vec::new();
        proof {
            assert(entries_view(entries@) =~= Seq::<(Seq<char>, int)>::empty());
            assert(gclocks.subrange(0, 0) =~= Seq::<GClock>::empty());
        }
        let mut i: usize = 0;
        while i < self.clocks.len()
            invariant
                i <= self.clocks.len(),
                self@.clocks == gclocks,
                totals_fit(gclocks),
                spec_time_map(gclocks.subrange(0, i as int), Seq::empty()) == Ok::<
                    Seq<(Seq<char>, int)>,
                    GClock,
                >(entries_view(entries@)),
            decreases self.clocks.len() - i,
        {
            let ghost gc = gclocks[i as int];
            let ghost cur = entries_view(entries@);
            proof {
                assert(gclocks.subrange(0, i as int + 1) =~= gclocks.subrange(0, i as int).push(
                    gc,
                ));
                lemma_time_map_snoc(gclocks.subrange(0, i as int), gc, Seq::empty());
            }
            let out_before_in = self.clocks[i].c_in.t > self.clocks[i].c_out;
            if out_before_in {
                proof {
                    lemma_time_map_split(gclocks, i as int, Seq::empty());
                    assert(gclocks.subrange(i as int, gclocks.len() as int)[0] == gc);
                }
                let c = clone_clock(&self.clocks[i]);
                return Err(ClockErr { clock: c, etype: crate::err::ClockErrType::OutBeforeIn });
            }
            let inc = self.clocks[i].c_out.minus(self.clocks[i].c_in.t);
            let ghost ginc = gc.c_out - gc.c_in.t;
            let mut idx: usize = 0;
            let mut found = false;
            loop
                invariant_except_break
                    !found,
                invariant
                    idx <= entries.len(),
                    cur == entries_view(entries@),
                    gc == gclocks[i as int],
                    self@.clocks == gclocks,
                    forall|j: int|
                        0 <= j < idx ==> cur[j].0 != gc.job && !lex_lt(gc.job, (#[trigger] cur[j]).0),
                    i < self.clocks.len(),
                ensures
                    idx <= entries.len(),
                    cur == entries_view(entries@),
                    gc == gclocks[i as int],
                    self@.clocks == gclocks,
                    i < self.clocks.len(),
                    forall|j: int|
                        0 <= j < idx ==> cur[j].0 != gc.job && !lex_lt(gc.job, (#[trigger] cur[j]).0),
                    found ==> idx < entries.len() && cur[idx as int].0 == gc.job,
                    !found ==> idx == entries.len() || lex_lt(gc.job, cur[idx as int].0),
                decreases entries.len() - idx,
            {
                if idx >= entries.len() {
                    break ;
                }
                if crate::tokenize::str_eq(entries[idx].0.as_str(), self.clocks[i].job.as_str()) {
                    proof {
                        assert(cur[idx as int].0 == entries@[idx as int].0@);
                        assert(gc.job == self.clocks@[i as int]@.job);
                    }
                    found = true;
                    break ;
                }
                if crate::tokenize::str_lt(self.clocks[i].job.as_str(), entries[idx].0.as_str()) {
                    proof {
                        assert(cur[idx as int].0 == entries@[idx as int].0@);
                        assert(gc.job == self.clocks@[i as int]@.job);
                    }
                    break ;
                }
                idx = idx + 1;
            }
            if found {
                proof {
                    lemma_add_minutes_found(cur, gc.job, ginc, idx as int);
                    assert(spec_add_minutes(cur, gc.job, ginc)[idx as int].1 == cur[idx as int].1
                        + ginc);
                    assert(spec_time_map(gclocks.subrange(0, i as int + 1), Seq::empty())
                        == Ok::<Seq<(Seq<char>, int)>, GClock>(spec_add_minutes(cur, gc.job, ginc)));
                    assert(fits_u32(spec_add_minutes(cur, gc.job, ginc)));
                    assert(spec_add_minutes(cur, gc.job, ginc)[idx as int].1 <= u32::MAX);
                }
                let total = entries[idx].1;
                let job_name = self.clocks[i].job.clone();
                entries.set(idx, (job_name, total.plus(inc)));
                proof {
                    assert(entries_view(entries@) =~= spec_add_minutes(cur, gc.job, ginc));
                }
            } else {
                proof {
                    lemma_add_minutes_insert(cur, gc.job, ginc, idx as int);
                }
                entries.insert(idx, (self.clocks[i].job.clone(), inc));
                proof {
                    assert(entries_view(entries@) =~= spec_add_minutes(cur, gc.job, ginc));
                }
            }
            i = i + 1;
        }
        proof {
            assert(gclocks.subrange(0, gclocks.len() as int) =~= gclocks);
        }
        Ok(TimeMap { entries })
    }
}

/// Law: after `year=YYYY`, a short date `DD/MM` changes the context and
/// the store exactly as the long date `DD/MM/YYYY` would.
pub proof fn lemma_short_date_matches_long(
    st: GReadState,
    store: GStore,
    line: int,
    col: int,
    d: int,
    m: int,
    y: int,
)
    requires
        st.year == Some(y),
    ensures
        read_step(st, store, GAction { line, col, ad: GActionData::ShortDate(d, m) }) == read_step(
            st,
            store,
            GAction { line, col, ad: GActionData::LongDate(d, m, y) },
        ),
{
}

/// Law: setting a tag twice in a row leaves the same tag set as setting
/// it once, and the store unchanged either way.
pub proof fn lemma_tag_idempotent(st: GReadState, store: GStore, a: GAction, t: Seq<char>)
    requires
        a.ad == GActionData::Tag(t),
    ensures
        ({
            let (store1, r1) = read_step(st, store, a);
            &&& store1 == store
            &&& r1 is Ok
            &&& read_step(r1->Ok_0, store1, a) == (store1, Ok::<GReadState, GParseErr>(r1->Ok_0))
        }),
{
    let (store1, r1) = read_step(st, store, a);
    let st1 = r1->Ok_0;
    assert(st1.tags.contains(t)) by {
        if !st.tags.contains(t) {
            assert(st1.tags == st.tags.push(t));
            assert(st1.tags[st.tags.len() as int] == t);
        }
    }
}

/// Law: after clearing all tags, clearing any single tag changes
/// nothing.
pub proof fn lemma_clear_then_clear_one(
    st: GReadState,
    store: GStore,
    a: GAction,
    b: GAction,
    t: Seq<char>,
)
    requires
        a.ad == GActionData::ClearTags,
        b.ad == GActionData::ClearTag(t),
    ensures
        ({
            let (store1, r1) = read_step(st, store, a);
            &&& store1 == store
            &&& r1 is Ok
            &&& read_step(r1->Ok_0, store1, b) == (store1, Ok::<GReadState, GParseErr>(r1->Ok_0))
        }),
{
    let (store1, r1) = read_step(st, store, a);
    let st1 = r1->Ok_0;
    assert(st1.tags =~= Seq::<Seq<char>>::empty());
    assert(spec_remove_tag(st1.tags, t) =~= st1.tags) by {
        reveal(Seq::filter);
    }
    let (store2, r2) = read_step(st1, store1, b);
    assert(r2->Ok_0 =~= st1);
}

/// Law: a clock-in that finds another interval still open closes it as
/// exactly one finished record whose clock-out is the new clock-in's
/// time; with date and job set, the new interval opens.
pub proof fn lemma_clockin_autocloses(st: GReadState, store: GStore, a: GAction, t: int)
    requires
        a.ad == GActionData::Clockin(t),
        st.curr_in is Some,
        st.date is Some,
        st.job is Some,
    ensures
        ({
            let (store2, r) = read_step(st, store, a);
            &&& store2.clocks == store.clocks.push(g_as_clock(st.curr_in->0, t))
            &&& store2.groups == store.groups
            &&& r is Ok
            &&& r->Ok_0.curr_in == Some(
                GClockin { c_in: GMoment { d: st.date->0, t }, job: st.job->0, tags: st.tags },
            )
        }),
{
}

/// Law: a clock-out with no open interval fails with `ClockinNotSet`
/// and leaves the store alone; a clock-in with no date set fails with
/// `DateNotSet`, and with a date but no job with `JobNotSet`, whatever
/// else the context holds; with no interval open, the failing clock-in
/// leaves the store alone too.
pub proof fn lemma_missing_context_errors(st: GReadState, store: GStore, a: GAction, t: int)
    ensures
        a.ad == GActionData::Clockout(t) && st.curr_in is None ==> read_step(st, store, a) == (
            store,
            Err::<GReadState, GParseErr>(act_err(a, ErrType::ClockinNotSet)),
        ),
        a.ad == GActionData::Clockin(t) && st.date is None ==> read_step(st, store, a).1 == Err::<
            GReadState,
            GParseErr,
        >(act_err(a, ErrType::DateNotSet)),
        a.ad == GActionData::Clockin(t) && st.date is Some && st.job is None ==> read_step(
            st,
            store,
            a,
        ).1 == Err::<GReadState, GParseErr>(act_err(a, ErrType::JobNotSet)),
        a.ad == GActionData::Clockin(t) && st.curr_in is None ==> read_step(st, store, a).0
            == store,
{
}

} // verus!
