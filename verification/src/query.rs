//! The query-pipeline compiler: a flat set of string key/value parameters
//! becomes an ordered sequence of aggregation stages.
//!
//! Each parameter is classified once, by value and then by key, and the
//! stages are assembled in a fixed order: a match stage first, then either
//! a single count stage, or a group-or-project stage, a sort, a limit and
//! an optional skip.

use vstd::prelude::*;

use crate::strutil::{
    all_digits, contains_char, first_is, is_digit, parse_i64, parsed_i64, str_eq, strip_leading,
    stripped_leading,
};

verus! {

/// Seconds subtracted from the current time for the default lower bound of
/// the time-range filter.
pub const DEFAULT_WINDOW_SECS: u64 = 3600;

/// The default page size when no valid `$limit` parameter is given.
pub const DEFAULT_LIMIT: i64 = 100;

/// The page size substituted for an out-of-range `$limit` value.
pub const FALLBACK_LIMIT: i64 = 10;

// ---------------------------------------------------------------------------
// Stage model (executable) and its mathematical view.
// ---------------------------------------------------------------------------

/// Bounds on the ingestion timestamp, in whole seconds since the epoch.
/// The lower bound is always present; the upper only when a valid `$lt`
/// parameter was given.
pub struct TimeFilter {
    pub lower: i64,
    pub upper: Option<i64>,
}

/// One filter condition on a record field.
pub enum FieldCond {
    /// The field must be present.
    Present,
    /// The field must be absent.
    Absent,
    /// The field must equal this literal string.
    Equals(String),
}

/// The match stage: the time-range filter on the ingestion timestamp,
/// merged with the per-field conditions in parameter order.  A condition
/// keyed on the timestamp field itself replaces the time-range filter.
pub struct MatchStage {
    pub time: Option<TimeFilter>,
    pub conds: Vec<(String, FieldCond)>,
}

/// What records are grouped by.
pub enum GroupKey {
    /// The field to group by, as the `$group` value gave it; rendering
    /// for the store turns it into a field reference.
    Field(String),
    /// A date-bucketing format applied to the ingestion time in a fixed
    /// timezone (the `$group` value contained a `%`).
    DateBucket(String),
}

/// The group stage: an optional grouping key, distinct-value accumulators
/// as (output field, field reference) pairs — the reference being the
/// output field with the `$` sigil — and a `count of members` accumulator
/// when an explicit grouping was requested.
pub struct GroupStage {
    pub key: Option<GroupKey>,
    pub distinct: Vec<(String, String)>,
    pub counted: bool,
}

/// The project stage: the explicit output fields.  An empty list stands
/// for the default projection, which excludes only the internal id and the
/// ingestion timestamp; a non-empty list replaces it (the internal id
/// stays excluded).
pub struct ProjectStage {
    pub fields: Vec<String>,
}

/// The sort stage: one field, ascending or descending.
pub enum SortOrder {
    Asc(String),
    Desc(String),
}

/// One aggregation stage.  A compiled pipeline is an ordered sequence of
/// these, executed first to last.
pub enum Stage {
    Match(MatchStage),
    Group(GroupStage),
    Project(ProjectStage),
    Sort(SortOrder),
    Limit(i64),
    Skip(i64),
    Count(String),
}

/// Mathematical view of `TimeFilter`.
pub ghost struct TimeFilterView {
    pub lower: int,
    pub upper: Option<int>,
}

/// Mathematical view of `FieldCond`.
pub ghost enum FieldCondView {
    Present,
    Absent,
    Equals(Seq<char>),
}

/// Mathematical view of `MatchStage`.
pub ghost struct MatchView {
    pub time: Option<TimeFilterView>,
    pub conds: Seq<(Seq<char>, FieldCondView)>,
}

/// Mathematical view of `GroupKey`.
pub ghost enum GroupKeyView {
    Field(Seq<char>),
    DateBucket(Seq<char>),
}

/// Mathematical view of `GroupStage`.
pub ghost struct GroupView {
    pub key: Option<GroupKeyView>,
    pub distinct: Seq<(Seq<char>, Seq<char>)>,
    pub counted: bool,
}

/// Mathematical view of `ProjectStage`.
pub ghost struct ProjectView {
    pub fields: Seq<Seq<char>>,
}

/// Mathematical view of `SortOrder`.
pub ghost enum SortView {
    Asc(Seq<char>),
    Desc(Seq<char>),
}

/// Mathematical view of `Stage`.
pub ghost enum StageView {
    Match(MatchView),
    Group(GroupView),
    Project(ProjectView),
    Sort(SortView),
    Limit(int),
    Skip(int),
    Count(Seq<char>),
}

impl DeepView for TimeFilter {
    type V = TimeFilterView;

    open spec fn deep_view(&self) -> TimeFilterView {
        TimeFilterView {
            lower: self.lower as int,
            upper: match self.upper {
                Some(u) => Some(u as int),
                None => None,
            },
        }
    }
}

impl DeepView for FieldCond {
    type V = FieldCondView;

    open spec fn deep_view(&self) -> FieldCondView {
        match *self {
            FieldCond::Present => FieldCondView::Present,
            FieldCond::Absent => FieldCondView::Absent,
            FieldCond::Equals(ref v) => FieldCondView::Equals(v@),
        }
    }
}

impl DeepView for MatchStage {
    type V = MatchView;

    open spec fn deep_view(&self) -> MatchView {
        MatchView {
            time: match self.time {
                Some(t) => Some(t.deep_view()),
                None => None,
            },
            conds: self.conds.deep_view(),
        }
    }
}

impl DeepView for GroupKey {
    type V = GroupKeyView;

    open spec fn deep_view(&self) -> GroupKeyView {
        match *self {
            GroupKey::Field(ref f) => GroupKeyView::Field(f@),
            GroupKey::DateBucket(ref f) => GroupKeyView::DateBucket(f@),
        }
    }
}

impl DeepView for GroupStage {
    type V = GroupView;

    open spec fn deep_view(&self) -> GroupView {
        GroupView {
            key: match self.key {
                Some(ref k) => Some(k.deep_view()),
                None => None,
            },
            distinct: self.distinct.deep_view(),
            counted: self.counted,
        }
    }
}

impl DeepView for ProjectStage {
    type V = ProjectView;

    open spec fn deep_view(&self) -> ProjectView {
        ProjectView { fields: self.fields.deep_view() }
    }
}

impl DeepView for SortOrder {
    type V = SortView;

    open spec fn deep_view(&self) -> SortView {
        match *self {
            SortOrder::Asc(ref f) => SortView::Asc(f@),
            SortOrder::Desc(ref f) => SortView::Desc(f@),
        }
    }
}

impl DeepView for Stage {
    type V = StageView;

    open spec fn deep_view(&self) -> StageView {
        match *self {
            Stage::Match(ref m) => StageView::Match(m.deep_view()),
            Stage::Group(ref g) => StageView::Group(g.deep_view()),
            Stage::Project(ref p) => StageView::Project(p.deep_view()),
            Stage::Sort(ref s) => StageView::Sort(s.deep_view()),
            Stage::Limit(n) => StageView::Limit(n as int),
            Stage::Skip(n) => StageView::Skip(n as int),
            Stage::Count(ref f) => StageView::Count(f@),
        }
    }
}

// ---------------------------------------------------------------------------
// Classification of one parameter.
// ---------------------------------------------------------------------------

/// The parameter list as character sequences, in the order given.
pub type ParamsView = Seq<(Seq<char>, Seq<char>)>;

/// Whether `k` starts with the operator sigil `$`.
pub open spec fn dollar_prefixed(k: Seq<char>) -> bool {
    k.len() > 0 && k[0] == '$'
}

/// No two parameters carry the same key: the parameter set is a mapping.
pub open spec fn unique_keys(params: ParamsView) -> bool {
    forall|i: int, j: int|
        0 <= i < j < params.len() ==> (#[trigger] params[i]).0 != (#[trigger] params[j]).0
}

/// What one parameter contributes to the pipeline.  This dispatch table is
/// the single source of truth: a parameter is classified by its value
/// first and by its key second.
pub ghost enum ParamEffect {
    /// A match condition on a field.
    Cond(Seq<char>, FieldCondView),
    /// A distinct-values accumulator, by output field name.
    Distinct(Seq<char>),
    /// An explicit output field.
    Output(Seq<char>),
    /// A count stage with this output field.
    Counting(Seq<char>),
    /// A grouping key.
    Grouping(GroupKeyView),
    /// A sort order.
    Sorting(SortView),
    /// A page size.
    Paging(int),
    /// A page offset.
    Skipping(int),
    /// No contribution.
    Inert,
}

/// Classifies one parameter.  Values are inspected before keys; `$lt` and
/// `$gt` are consumed by the time-range filter, and any other `$`-prefixed
/// key with an unreserved value is ignored.
pub open spec fn effect_of(k: Seq<char>, v: Seq<char>) -> ParamEffect {
    if v == "$exists"@ {
        ParamEffect::Cond(k, FieldCondView::Present)
    } else if v.len() == 0 {
        if !dollar_prefixed(k) {
            ParamEffect::Cond(k, FieldCondView::Absent)
        } else {
            ParamEffect::Inert
        }
    } else if v == "$addToSet"@ {
        ParamEffect::Distinct(stripped_leading(k, '$'))
    } else if v == "$project"@ {
        ParamEffect::Output(stripped_leading(k, '$'))
    } else if k == "$count"@ {
        ParamEffect::Counting(stripped_leading(v, '$'))
    } else if k == "$group"@ {
        if v.contains('%') {
            ParamEffect::Grouping(GroupKeyView::DateBucket(v))
        } else {
            ParamEffect::Grouping(GroupKeyView::Field(v))
        }
    } else if k == "$sort"@ {
        if dollar_prefixed(v) {
            ParamEffect::Sorting(SortView::Asc(stripped_leading(v, '$')))
        } else {
            ParamEffect::Sorting(SortView::Desc(v))
        }
    } else if k == "$limit"@ {
        match parsed_i64(v) {
            Some(n) => ParamEffect::Paging(
                if 1 <= n <= 1000 {
                    n
                } else {
                    FALLBACK_LIMIT as int
                },
            ),
            None => ParamEffect::Inert,
        }
    } else if k == "$skip"@ {
        match parsed_i64(v) {
            Some(n) => ParamEffect::Skipping(
                if 1 <= n <= 1000 {
                    n
                } else {
                    0
                },
            ),
            None => ParamEffect::Inert,
        }
    } else {
        if !dollar_prefixed(k) {
            ParamEffect::Cond(k, FieldCondView::Equals(v))
        } else {
            ParamEffect::Inert
        }
    }
}

// ---------------------------------------------------------------------------
// The pipeline's components as functions of the parameter list.
// ---------------------------------------------------------------------------

/// The value of the last parameter keyed `k`, if any.  Under `unique_keys`
/// this is the one entry of the mapping.
pub open spec fn found_value(params: ParamsView, k: Seq<char>) -> Option<Seq<char>>
    decreases params.len(),
{
    if params.len() == 0 {
        None
    } else if params.last().0 == k {
        Some(params.last().1)
    } else {
        found_value(params.drop_last(), k)
    }
}

/// A key/value list with `v` stored under `name`: the entry `name` already
/// had is overwritten in place, or a new entry is appended.
pub open spec fn upserted(s: Seq<(Seq<char>, Seq<char>)>, name: Seq<char>, v: Seq<char>) -> Seq<
    (Seq<char>, Seq<char>),
> {
    if exists|j: int| 0 <= j < s.len() && (#[trigger] s[j]).0 == name {
        let j = choose|j: int| 0 <= j < s.len() && (#[trigger] s[j]).0 == name;
        s.update(j, (name, v))
    } else {
        s.push((name, v))
    }
}

/// The per-field match conditions, in parameter order.
pub open spec fn conds_of(params: ParamsView) -> Seq<(Seq<char>, FieldCondView)>
    decreases params.len(),
{
    if params.len() == 0 {
        Seq::empty()
    } else {
        let r = conds_of(params.drop_last());
        match effect_of(params.last().0, params.last().1) {
            ParamEffect::Cond(k, c) => r.push((k, c)),
            _ => r,
        }
    }
}

/// Whether some match condition is keyed on the ingestion timestamp field
/// itself; such a condition replaces the time-range filter.
pub open spec fn time_replaced(params: ParamsView) -> bool {
    exists|j: int|
        0 <= j < conds_of(params).len() && (#[trigger] conds_of(params)[j]).0 == "createdAt"@
}

/// Whether some entry's name equals `name`.
pub open spec fn lists_name(s: Seq<(Seq<char>, Seq<char>)>, name: Seq<char>) -> bool {
    exists|j: int| 0 <= j < s.len() && (#[trigger] s[j]).0 == name
}

/// The distinct-value accumulators: each `$addToSet` parameter collects,
/// under its key with leading sigils removed, a reference to that field
/// (the name with the sigil restored), listed once however many keys map
/// to it — so the set of accumulators is a function of the parameter
/// mapping, whatever its order.
pub open spec fn distinct_of(params: ParamsView) -> Seq<(Seq<char>, Seq<char>)>
    decreases params.len(),
{
    if params.len() == 0 {
        Seq::empty()
    } else {
        let r = distinct_of(params.drop_last());
        match effect_of(params.last().0, params.last().1) {
            ParamEffect::Distinct(name) => if lists_name(r, name) {
                r
            } else {
                r.push((name, seq!['$'] + name))
            },
            _ => r,
        }
    }
}

/// The grouping key, from the `$group` parameter.
pub open spec fn group_key_of(params: ParamsView) -> Option<GroupKeyView>
    decreases params.len(),
{
    if params.len() == 0 {
        None
    } else {
        match effect_of(params.last().0, params.last().1) {
            ParamEffect::Grouping(g) => Some(g),
            _ => group_key_of(params.drop_last()),
        }
    }
}

/// Whether a group stage is emitted: an explicit grouping was requested,
/// or a distinct-value accumulator claims the grouping-identifier field.
pub open spec fn grouped(params: ParamsView) -> bool {
    group_key_of(params) is Some || exists|j: int|
        0 <= j < distinct_of(params).len() && (#[trigger] distinct_of(params)[j]).0 == "_id"@
}

/// The count stage's output field, from the `$count` parameter.
pub open spec fn count_of(params: ParamsView) -> Option<Seq<char>>
    decreases params.len(),
{
    if params.len() == 0 {
        None
    } else {
        match effect_of(params.last().0, params.last().1) {
            ParamEffect::Counting(f) => Some(f),
            _ => count_of(params.drop_last()),
        }
    }
}

/// The explicit output fields, in parameter order without repetition.
pub open spec fn project_of(params: ParamsView) -> Seq<Seq<char>>
    decreases params.len(),
{
    if params.len() == 0 {
        Seq::empty()
    } else {
        let r = project_of(params.drop_last());
        match effect_of(params.last().0, params.last().1) {
            ParamEffect::Output(f) => if r.contains(f) {
                r
            } else {
                r.push(f)
            },
            _ => r,
        }
    }
}

/// The sort the `$sort` parameter requests, if any (the last one when
/// several are given).
pub open spec fn explicit_sort_of(params: ParamsView) -> Option<SortView>
    decreases params.len(),
{
    if params.len() == 0 {
        None
    } else {
        match effect_of(params.last().0, params.last().1) {
            ParamEffect::Sorting(sv) => Some(sv),
            _ => explicit_sort_of(params.drop_last()),
        }
    }
}

/// The sort that applies without an explicit `$sort`: a requested grouping
/// orders by the member count descending, anything else by the ingestion
/// timestamp descending.
pub open spec fn grouping_sort(params: ParamsView) -> SortView {
    if group_key_of(params) is Some {
        SortView::Desc("count"@)
    } else {
        SortView::Desc("createdAt"@)
    }
}

/// The sort order, a function of the parameter mapping alone: an explicit
/// `$sort` decides wherever it stands among the parameters, and without
/// one the grouping default applies.
pub open spec fn sort_of(params: ParamsView) -> SortView {
    match explicit_sort_of(params) {
        Some(sv) => sv,
        None => grouping_sort(params),
    }
}

/// The page size: a valid `$limit` in `[1, 1000]` is taken as given, an
/// out-of-range one falls back to 10, and an absent or unparsable one
/// leaves the default of 100.
pub open spec fn limit_of(params: ParamsView) -> int
    decreases params.len(),
{
    if params.len() == 0 {
        DEFAULT_LIMIT as int
    } else {
        match effect_of(params.last().0, params.last().1) {
            ParamEffect::Paging(n) => n,
            _ => limit_of(params.drop_last()),
        }
    }
}

/// The page offset: a parseable `$skip` yields an offset (clamped to 0
/// outside `[1, 1000]`); otherwise no skip stage is emitted.
pub open spec fn skip_of(params: ParamsView) -> Option<int>
    decreases params.len(),
{
    if params.len() == 0 {
        None
    } else {
        match effect_of(params.last().0, params.last().1) {
            ParamEffect::Skipping(n) => Some(n),
            _ => skip_of(params.drop_last()),
        }
    }
}

/// The lower bound of the time-range filter: the `$gt` parameter when
/// present and parseable, else one hour before `now`.
pub open spec fn lower_bound_of(params: ParamsView, now: int) -> int {
    match found_value(params, "$gt"@) {
        Some(v) => match parsed_i64(v) {
            Some(n) => n,
            None => now - DEFAULT_WINDOW_SECS,
        },
        None => now - DEFAULT_WINDOW_SECS,
    }
}

/// The upper bound of the time-range filter: the `$lt` parameter when
/// present and parseable, else absent.
pub open spec fn upper_bound_of(params: ParamsView) -> Option<int> {
    match found_value(params, "$lt"@) {
        Some(v) => parsed_i64(v),
        None => None,
    }
}

/// The whole match stage.
pub open spec fn match_of(params: ParamsView, now: int) -> MatchView {
    MatchView {
        time: if time_replaced(params) {
            None
        } else {
            Some(
                TimeFilterView {
                    lower: lower_bound_of(params, now),
                    upper: upper_bound_of(params),
                },
            )
        },
        conds: conds_of(params),
    }
}

/// The compiled pipeline: the match stage, then either the count stage
/// alone, or the group-or-project stage, the sort, the limit, and the
/// optional skip.
pub open spec fn compiled(params: ParamsView, now: int) -> Seq<StageView> {
    let head = StageView::Match(match_of(params, now));
    match count_of(params) {
        Some(f) => seq![head, StageView::Count(f)],
        None => {
            let main = if grouped(params) {
                StageView::Group(
                    GroupView {
                        key: group_key_of(params),
                        distinct: distinct_of(params),
                        counted: group_key_of(params) is Some,
                    },
                )
            } else {
                StageView::Project(ProjectView { fields: project_of(params) })
            };
            let base = seq![
                head,
                main,
                StageView::Sort(sort_of(params)),
                StageView::Limit(limit_of(params)),
            ];
            match skip_of(params) {
                Some(n) => base.push(StageView::Skip(n)),
                None => base,
            }
        },
    }
}

// ---------------------------------------------------------------------------
// Executable helpers.
// ---------------------------------------------------------------------------

proof fn lemma_upserted_unique(s: Seq<(Seq<char>, Seq<char>)>, name: Seq<char>, v: Seq<char>)
    requires
        unique_keys(s),
    ensures
        unique_keys(upserted(s, name, v)),
{
    let r = upserted(s, name, v);
    if exists|j: int| 0 <= j < s.len() && (#[trigger] s[j]).0 == name {
        let j = choose|j: int| 0 <= j < s.len() && (#[trigger] s[j]).0 == name;
        assert forall|a: int, b: int| 0 <= a < b < r.len() implies (#[trigger] r[a]).0 != (
        #[trigger] r[b]).0 by {
            assert(s[a].0 != s[b].0);
        }
    } else {
        assert forall|a: int, b: int| 0 <= a < b < r.len() implies (#[trigger] r[a]).0 != (
        #[trigger] r[b]).0 by {
            if b < s.len() {
                assert(s[a].0 != s[b].0);
            } else {
                assert(r[b].0 == name);
                assert(s[a].0 != name);
            }
        }
    }
}

/// The stored value of the last parameter with this key, if any.
fn find_value<'a>(params: &'a Vec<(String, String)>, key: &str) -> (r: Option<&'a String>)
    ensures
        match r {
            Some(v) => found_value(params.deep_view(), key@) == Some(v@),
            None => found_value(params.deep_view(), key@) is None,
        },
{
    let ghost pv = params.deep_view();
    let mut i: usize = params.len();
    proof {
        assert(pv.take(i as int) =~= pv);
    }
    while i > 0
        invariant
            i <= params.len(),
            pv == params.deep_view(),
            pv.len() == params.len(),
            found_value(pv, key@) == found_value(pv.take(i as int), key@),
        decreases i,
    {
        i = i - 1;
        proof {
            assert(pv.take(i + 1).drop_last() =~= pv.take(i as int));
            assert(pv.take(i + 1).last() == pv[i as int]);
        }
        if str_eq(params[i].0.as_str(), key) {
            return Some(&params[i].1);
        }
    }
    proof {
        assert(pv.take(0) =~= Seq::<(Seq<char>, Seq<char>)>::empty());
    }
    None
}

/// Stores `v` under `name`: overwrites the entry `name` already had, in
/// place, or appends a new one.
fn upsert_pair(s: &mut Vec<(String, String)>, name: String, v: String)
    requires
        unique_keys(old(s).deep_view()),
    ensures
        final(s).deep_view() == upserted(old(s).deep_view(), name@, v@),
{
    let ghost sv = old(s).deep_view();
    let n = s.len();
    let mut j: usize = 0;
    while j < n
        invariant
            n == s.len(),
            0 <= j <= n,
            *s == *old(s),
            sv == old(s).deep_view(),
            unique_keys(sv),
            forall|l: int| 0 <= l < j ==> (#[trigger] sv[l]).0 != name@,
        decreases n - j,
    {
        if str_eq(s[j].0.as_str(), name.as_str()) {
            proof {
                assert(sv[j as int].0 == name@);
                let jj = choose|jj: int| 0 <= jj < sv.len() && (#[trigger] sv[jj]).0 == name@;
                assert(unique_keys(sv));
                assert(jj == j as int);
            }
            let ghost mid = old(s).deep_view().remove(j as int);
            s.remove(j);
            proof {
                assert(s.deep_view() =~= mid);
            }
            s.insert(j, (name, v));
            proof {
                assert(s.deep_view() =~= sv.update(j as int, (name@, v@)));
                assert(s.deep_view() =~= upserted(sv, name@, v@));
            }
            return;
        }
        j = j + 1;
    }
    s.push((name, v));
    proof {
        assert(!(exists|jj: int| 0 <= jj < sv.len() && (#[trigger] sv[jj]).0 == name@));
        assert(s.deep_view() =~= sv.push((name@, v@)));
    }
}

/// Collects a distinct-value accumulator for `name`: the entry
/// `(name, "$" + name)` is appended unless the name is already listed.
fn add_distinct(s: &mut Vec<(String, String)>, name: String)
    ensures
        final(s).deep_view() == (if lists_name(old(s).deep_view(), name@) {
            old(s).deep_view()
        } else {
            old(s).deep_view().push((name@, seq!['$'] + name@))
        }),
{
    let ghost sv = old(s).deep_view();
    let n = s.len();
    let mut j: usize = 0;
    while j < n
        invariant
            n == s.len(),
            0 <= j <= n,
            *s == *old(s),
            sv == old(s).deep_view(),
            forall|l: int| 0 <= l < j ==> (#[trigger] sv[l]).0 != name@,
        decreases n - j,
    {
        if str_eq(s[j].0.as_str(), name.as_str()) {
            proof {
                assert(sv[j as int].0 == name@);
                assert(lists_name(sv, name@));
            }
            return;
        }
        j = j + 1;
    }
    proof {
        assert(!lists_name(sv, name@));
    }
    let mut fieldref = "$".to_owned();
    fieldref.append(name.as_str());
    proof {
        reveal_strlit("$");
        assert(fieldref@ =~= seq!['$'] + name@);
    }
    s.push((name, fieldref));
    proof {
        assert(s.deep_view() =~= sv.push((name@, seq!['$'] + name@)));
    }
}

/// Appends `f` unless it is already listed.
fn push_unique(s: &mut Vec<String>, f: String)
    ensures
        final(s).deep_view() == (if old(s).deep_view().contains(f@) {
            old(s).deep_view()
        } else {
            old(s).deep_view().push(f@)
        }),
{
    let ghost sv = old(s).deep_view();
    let n = s.len();
    let mut j: usize = 0;
    while j < n
        invariant
            n == s.len(),
            0 <= j <= n,
            *s == *old(s),
            sv == old(s).deep_view(),
            forall|l: int| 0 <= l < j ==> #[trigger] sv[l] != f@,
        decreases n - j,
    {
        if str_eq(s[j].as_str(), f.as_str()) {
            proof {
                assert(sv[j as int] == f@);
                assert(sv.contains(f@));
            }
            return;
        }
        j = j + 1;
    }
    proof {
        assert(!sv.contains(f@));
    }
    s.push(f);
    proof {
        assert(s.deep_view() =~= sv.push(f@));
    }
}

/// The time-range filter on the ingestion timestamp: lower bound from
/// `$gt` or one hour before `now`, upper bound from `$lt` when valid.
pub fn time_filter(params: &Vec<(String, String)>, now: u64) -> (tf: TimeFilter)
    requires
        now <= i64::MAX as u64,
    ensures
        tf.lower as int == lower_bound_of(params.deep_view(), now as int),
        (match tf.upper {
            Some(u) => upper_bound_of(params.deep_view()) == Some(u as int),
            None => upper_bound_of(params.deep_view()) is None,
        }),
{
    let upper: Option<i64> = match find_value(params, "$lt") {
        Some(v) => parse_i64(v.as_str()),
        None => None,
    };
    let lower: i64 = match find_value(params, "$gt") {
        Some(v) => match parse_i64(v.as_str()) {
            Some(n) => n,
            None => now as i64 - DEFAULT_WINDOW_SECS as i64,
        },
        None => now as i64 - DEFAULT_WINDOW_SECS as i64,
    };
    TimeFilter { lower, upper }
}

/// Whether some entry's name equals `name`, over any entry payload.
fn has_key<T: DeepView>(s: &Vec<(String, T)>, name: &str) -> (r: bool)
    ensures
        r == exists|j: int|
            0 <= j < s.deep_view().len() && (#[trigger] s.deep_view()[j]).0 == name@,
{
    let ghost sv = s.deep_view();
    let n = s.len();
    let mut j: usize = 0;
    while j < n
        invariant
            n == s.len(),
            sv == s.deep_view(),
            sv.len() == n,
            0 <= j <= n,
            forall|l: int| 0 <= l < j ==> (#[trigger] sv[l]).0 != name@,
        decreases n - j,
    {
        if str_eq(s[j].0.as_str(), name) {
            proof {
                assert(sv[j as int].0 == name@);
            }
            return true;
        }
        j = j + 1;
    }
    false
}

/// Compiles a flat parameter mapping into the ordered stage pipeline.
///
/// The result is a function of the parameters and of `now` (the current
/// time in whole seconds, used for the default time window): it equals
/// `compiled` on their views, stage for stage.
pub fn compile(params: &Vec<(String, String)>, now: u64) -> (r: Vec<Stage>)
    requires
        now <= i64::MAX as u64,
    ensures
        r.deep_view() == compiled(params.deep_view(), now as int),
{
    let ghost pv = params.deep_view();
    let mut conds: Vec<(String, FieldCond)> = Vec::new();
    let mut distinct: Vec<(String, String)> = Vec::new();
    let mut outputs: Vec<String> = Vec::new();
    let mut gkey: Option<GroupKey> = None;
    let mut count: Option<String> = None;
    let mut explicit_sort: Option<SortOrder> = None;
    let mut limit: i64 = DEFAULT_LIMIT;
    let mut skip: Option<i64> = None;
    proof {
        assert(pv.take(0) =~= Seq::<(Seq<char>, Seq<char>)>::empty());
        assert(conds.deep_view() =~= conds_of(pv.take(0)));
        assert(distinct.deep_view() =~= distinct_of(pv.take(0)));
        assert(outputs.deep_view() =~= project_of(pv.take(0)));
    }
    let n = params.len();
    let mut i: usize = 0;
    while i < n
        invariant
            n == params.len(),
            pv == params.deep_view(),
            pv.len() == n,
            0 <= i <= n,
            conds.deep_view() == conds_of(pv.take(i as int)),
            distinct.deep_view() == distinct_of(pv.take(i as int)),
            outputs.deep_view() == project_of(pv.take(i as int)),
            (match gkey {
                Some(ref g) => group_key_of(pv.take(i as int)) == Some(g.deep_view()),
                None => group_key_of(pv.take(i as int)) is None,
            }),
            (match count {
                Some(ref c) => count_of(pv.take(i as int)) == Some(c@),
                None => count_of(pv.take(i as int)) is None,
            }),
            (match explicit_sort {
                Some(ref sv) => explicit_sort_of(pv.take(i as int)) == Some(sv.deep_view()),
                None => explicit_sort_of(pv.take(i as int)) is None,
            }),
            limit as int == limit_of(pv.take(i as int)),
            (match skip {
                Some(m) => skip_of(pv.take(i as int)) == Some(m as int),
                None => skip_of(pv.take(i as int)) is None,
            }),
        decreases n - i,
    {
        let ghost prev = pv.take(i as int);
        let ghost cur = pv.take(i as int + 1);
        let k = params[i].0.clone();
        let v = params[i].1.clone();
        proof {
            assert(cur.drop_last() =~= prev);
            assert(cur.last() == pv[i as int]);
            assert(pv[i as int] == (k@, v@));
        }
        if str_eq(v.as_str(), "$exists") {
            let ghost before = conds.deep_view();
            conds.push((k, FieldCond::Present));
            proof {
                assert(conds.deep_view() =~= before.push((k@, FieldCondView::Present)));
            }
        } else if v.as_str().is_empty() {
            proof {
                assert(v@ =~= Seq::<char>::empty());
                assert(v@.len() == 0);
            }
            if !first_is(k.as_str(), '$') {
                let ghost before = conds.deep_view();
                conds.push((k, FieldCond::Absent));
                proof {
                    assert(conds.deep_view() =~= before.push((k@, FieldCondView::Absent)));
                }
            }
        } else if str_eq(v.as_str(), "$addToSet") {
            let name = strip_leading(k.as_str(), '$');
            add_distinct(&mut distinct, name);
        } else if str_eq(v.as_str(), "$project") {
            let f = strip_leading(k.as_str(), '$');
            push_unique(&mut outputs, f);
        } else if str_eq(k.as_str(), "$count") {
            count = Some(strip_leading(v.as_str(), '$'));
        } else if str_eq(k.as_str(), "$group") {
            if contains_char(v.as_str(), '%') {
                gkey = Some(GroupKey::DateBucket(v));
            } else {
                gkey = Some(GroupKey::Field(v));
            }
        } else if str_eq(k.as_str(), "$sort") {
            if first_is(v.as_str(), '$') {
                explicit_sort = Some(SortOrder::Asc(strip_leading(v.as_str(), '$')));
            } else {
                explicit_sort = Some(SortOrder::Desc(v));
            }
        } else if str_eq(k.as_str(), "$limit") {
            match parse_i64(v.as_str()) {
                Some(m) => {
                    limit = if 1 <= m && m <= 1000 {
                        m
                    } else {
                        FALLBACK_LIMIT
                    };
                },
                None => {},
            }
        } else if str_eq(k.as_str(), "$skip") {
            match parse_i64(v.as_str()) {
                Some(m) => {
                    skip = Some(
                        if 1 <= m && m <= 1000 {
                            m
                        } else {
                            0
                        },
                    );
                },
                None => {},
            }
        } else {
            if !first_is(k.as_str(), '$') {
                let ghost before = conds.deep_view();
                conds.push((k, FieldCond::Equals(v)));
                proof {
                    assert(conds.deep_view() =~= before.push((k@, FieldCondView::Equals(v@))));
                }
            }
        }
        i = i + 1;
    }
    proof {
        assert(pv.take(n as int) =~= pv);
    }
    let tf: Option<TimeFilter> = if has_key(&conds, "createdAt") {
        None
    } else {
        Some(time_filter(params, now))
    };
    let counted = gkey.is_some();
    let sort: SortOrder = match explicit_sort {
        Some(sv) => sv,
        None => if counted {
            SortOrder::Desc("count".to_owned())
        } else {
            SortOrder::Desc("createdAt".to_owned())
        },
    };
    proof {
        assert(sort.deep_view() == sort_of(pv));
    }
    let has_group = counted || has_key(&distinct, "_id");
    let mut r: Vec<Stage> = Vec::new();
    r.push(Stage::Match(MatchStage { time: tf, conds }));
    match count {
        Some(f) => {
            r.push(Stage::Count(f));
            proof {
                assert(r.deep_view() =~= compiled(pv, now as int));
            }
        },
        None => {
            if has_group {
                r.push(Stage::Group(GroupStage { key: gkey, distinct, counted }));
            } else {
                r.push(Stage::Project(ProjectStage { fields: outputs }));
            }
            r.push(Stage::Sort(sort));
            r.push(Stage::Limit(limit));
            match skip {
                Some(m) => {
                    r.push(Stage::Skip(m));
                },
                None => {},
            }
            proof {
                assert(r.deep_view() =~= compiled(pv, now as int));
            }
        },
    }
    r
}

// ---------------------------------------------------------------------------
// Laws of the compiler.
// ---------------------------------------------------------------------------

proof fn lemma_no_key_no_found(params: ParamsView, k: Seq<char>)
    requires
        forall|j: int| 0 <= j < params.len() ==> (#[trigger] params[j]).0 != k,
    ensures
        found_value(params, k) is None,
    decreases params.len(),
{
    if params.len() > 0 {
        assert(params[params.len() - 1].0 != k);
        assert forall|j: int| 0 <= j < params.drop_last().len() implies (
        #[trigger] params.drop_last()[j]).0 != k by {
            assert(params.drop_last()[j] == params[j]);
        }
        lemma_no_key_no_found(params.drop_last(), k);
    }
}

proof fn lemma_unique_drop_last(params: ParamsView)
    requires
        unique_keys(params),
        params.len() > 0,
    ensures
        unique_keys(params.drop_last()),
        forall|j: int|
            0 <= j < params.len() - 1 ==> (#[trigger] params[j]).0 != params.last().0,
{
    assert forall|i: int, j: int| 0 <= i < j < params.drop_last().len() implies (
    #[trigger] params.drop_last()[i]).0 != (#[trigger] params.drop_last()[j]).0 by {
        assert(params.drop_last()[i] == params[i]);
        assert(params.drop_last()[j] == params[j]);
    }
    assert forall|j: int| 0 <= j < params.len() - 1 implies (#[trigger] params[j]).0
        != params.last().0 by {
        assert(params[j].0 != params[params.len() - 1].0);
    }
}

proof fn lemma_reserved_values_unparsable()
    ensures
        parsed_i64("$exists"@) is None,
        parsed_i64("$addToSet"@) is None,
        parsed_i64("$project"@) is None,
{
    reveal_strlit("$exists");
    reveal_strlit("$addToSet");
    reveal_strlit("$project");
    assert(!is_digit("$exists"@[0]));
    assert(!all_digits("$exists"@));
    assert(!is_digit("$addToSet"@[0]));
    assert(!all_digits("$addToSet"@));
    assert(!is_digit("$project"@[0]));
    assert(!all_digits("$project"@));
}

proof fn lemma_limit_found(params: ParamsView)
    requires
        unique_keys(params),
    ensures
        limit_of(params) == (match found_value(params, "$limit"@) {
            None => DEFAULT_LIMIT as int,
            Some(v) => match parsed_i64(v) {
                Some(m) => if 1 <= m <= 1000 {
                    m
                } else {
                    FALLBACK_LIMIT as int
                },
                None => DEFAULT_LIMIT as int,
            },
        }),
    decreases params.len(),
{
    reveal_strlit("$limit");
    reveal_strlit("$exists");
    reveal_strlit("$addToSet");
    reveal_strlit("$project");
    reveal_strlit("$count");
    reveal_strlit("$group");
    reveal_strlit("$sort");
    reveal_strlit("$skip");
    if params.len() > 0 {
        let l = params.last();
        lemma_unique_drop_last(params);
        lemma_limit_found(params.drop_last());
        lemma_reserved_values_unparsable();
        if l.0 == "$limit"@ {
            lemma_no_key_no_found(params.drop_last(), "$limit"@);
            assert(dollar_prefixed(l.0));
            assert("$limit"@ != "$count"@) by {
                assert("$limit"@[1] != "$count"@[1]);
            }
            assert("$limit"@ != "$group"@) by {
                assert("$limit"@[1] != "$group"@[1]);
            }
        }
    }
}

proof fn lemma_skip_found(params: ParamsView)
    requires
        unique_keys(params),
    ensures
        skip_of(params) == (match found_value(params, "$skip"@) {
            None => None::<int>,
            Some(v) => match parsed_i64(v) {
                Some(m) => Some(
                    if 1 <= m <= 1000 {
                        m
                    } else {
                        0
                    },
                ),
                None => None::<int>,
            },
        }),
    decreases params.len(),
{
    reveal_strlit("$limit");
    reveal_strlit("$exists");
    reveal_strlit("$addToSet");
    reveal_strlit("$project");
    reveal_strlit("$count");
    reveal_strlit("$group");
    reveal_strlit("$sort");
    reveal_strlit("$skip");
    if params.len() > 0 {
        let l = params.last();
        lemma_unique_drop_last(params);
        lemma_skip_found(params.drop_last());
        lemma_reserved_values_unparsable();
        if l.0 == "$skip"@ {
            lemma_no_key_no_found(params.drop_last(), "$skip"@);
            assert(dollar_prefixed(l.0));
            assert("$skip"@ != "$sort"@) by {
                assert("$skip"@[2] != "$sort"@[2]);
            }
        }
    }
}

proof fn lemma_count_found(params: ParamsView)
    requires
        unique_keys(params),
    ensures
        count_of(params) == (match found_value(params, "$count"@) {
            None => None::<Seq<char>>,
            Some(v) => if v == "$exists"@ || v.len() == 0 || v == "$addToSet"@ || v
                == "$project"@ {
                None::<Seq<char>>
            } else {
                Some(stripped_leading(v, '$'))
            },
        }),
    decreases params.len(),
{
    reveal_strlit("$limit");
    reveal_strlit("$exists");
    reveal_strlit("$addToSet");
    reveal_strlit("$project");
    reveal_strlit("$count");
    reveal_strlit("$group");
    reveal_strlit("$sort");
    reveal_strlit("$skip");
    if params.len() > 0 {
        let l = params.last();
        lemma_unique_drop_last(params);
        lemma_count_found(params.drop_last());
        if l.0 == "$count"@ {
            lemma_no_key_no_found(params.drop_last(), "$count"@);
            assert(dollar_prefixed(l.0));
        }
    }
}

/// Page-size law: with a `$limit` parameter in `[1, 1000]` (and no
/// `$count`), the compiled pipeline's fourth stage is a limit of exactly
/// that value; out of range it is the fallback of 10, and unparsable or
/// absent it is the default of 100.
pub proof fn lemma_limit_stage(params: ParamsView, now: int)
    requires
        unique_keys(params),
        count_of(params) is None,
    ensures
        compiled(params, now).len() >= 4,
        compiled(params, now)[3] == StageView::Limit(
            match found_value(params, "$limit"@) {
                None => DEFAULT_LIMIT as int,
                Some(v) => match parsed_i64(v) {
                    Some(m) => if 1 <= m <= 1000 {
                        m
                    } else {
                        FALLBACK_LIMIT as int
                    },
                    None => DEFAULT_LIMIT as int,
                },
            },
        ),
{
    lemma_limit_found(params);
}

/// Page-offset law: with a parseable `$skip` parameter the pipeline ends
/// in a skip stage — the given value in `[1, 1000]`, zero outside — and
/// without one no skip stage is emitted (assuming no `$count`).
pub proof fn lemma_skip_stage(params: ParamsView, now: int)
    requires
        unique_keys(params),
        count_of(params) is None,
    ensures
        (match found_value(params, "$skip"@) {
            Some(v) => match parsed_i64(v) {
                Some(m) => compiled(params, now).len() == 5 && compiled(params, now)[4]
                    == StageView::Skip(
                    if 1 <= m <= 1000 {
                        m
                    } else {
                        0
                    },
                ),
                None => compiled(params, now).len() == 4,
            },
            None => compiled(params, now).len() == 4,
        }),
{
    lemma_skip_found(params);
}

/// Time-window law, default: without a parseable `$gt` parameter, the
/// lower bound of the time filter is exactly one hour before `now`.
pub proof fn lemma_default_lower_bound(params: ParamsView, now: int)
    requires
        match found_value(params, "$gt"@) {
            None => true,
            Some(v) => parsed_i64(v) is None,
        },
    ensures
        lower_bound_of(params, now) == now - DEFAULT_WINDOW_SECS,
{
}

/// Time-window law, explicit: a parseable `$gt` parameter sets the lower
/// bound to exactly its value; the default window is not applied.
pub proof fn lemma_explicit_lower_bound(params: ParamsView, now: int, v: Seq<char>, t: int)
    requires
        found_value(params, "$gt"@) == Some(v),
        parsed_i64(v) == Some(t),
    ensures
        lower_bound_of(params, now) == t,
{
}

/// Count law: a recognized `$count` parameter yields a pipeline of exactly
/// two stages — the match stage and one count stage — so group, project,
/// sort, limit and skip are all suppressed.
pub proof fn lemma_count_suppresses(params: ParamsView, now: int, v: Seq<char>)
    requires
        unique_keys(params),
        found_value(params, "$count"@) == Some(v),
        v != "$exists"@,
        v != "$addToSet"@,
        v != "$project"@,
        v.len() > 0,
    ensures
        compiled(params, now).len() == 2,
        compiled(params, now)[0] == StageView::Match(match_of(params, now)),
        compiled(params, now)[1] == StageView::Count(stripped_leading(v, '$')),
{
    lemma_count_found(params);
}

proof fn lemma_conds_contains(params: ParamsView, i: int)
    requires
        0 <= i < params.len(),
        effect_of(params[i].0, params[i].1) is Cond,
    ensures
        conds_of(params).contains(
            (
                params[i].0,
                match effect_of(params[i].0, params[i].1) {
                    ParamEffect::Cond(k, c) => c,
                    _ => FieldCondView::Present,
                },
            ),
        ),
    decreases params.len(),
{
    let c = match effect_of(params[i].0, params[i].1) {
        ParamEffect::Cond(k, c) => c,
        _ => FieldCondView::Present,
    };
    if i == params.len() - 1 {
        let r = conds_of(params.drop_last());
        assert(conds_of(params) == r.push((params[i].0, c)));
        assert(conds_of(params)[r.len() as int] == (params[i].0, c));
    } else {
        assert(params.drop_last()[i] == params[i]);
        lemma_conds_contains(params.drop_last(), i);
        let r = conds_of(params.drop_last());
        let j = choose|j: int| 0 <= j < r.len() && r[j] == (params[i].0, c);
        assert(conds_of(params).len() >= r.len());
        match effect_of(params.last().0, params.last().1) {
            ParamEffect::Cond(k2, c2) => {
                assert(conds_of(params)[j] == (params[i].0, c));
            },
            _ => {},
        }
        assert(conds_of(params)[j] == (params[i].0, c));
    }
}

/// Field-filter law: a parameter with an unreserved key compiles to a
/// match condition on that field — value `"$exists"` requires it present,
/// an empty value requires it absent, and any other unreserved value
/// requires equality with it.
pub proof fn lemma_field_cond(params: ParamsView, i: int)
    requires
        0 <= i < params.len(),
        !dollar_prefixed(params[i].0),
        params[i].1 != "$addToSet"@,
        params[i].1 != "$project"@,
    ensures
        conds_of(params).contains(
            (
                params[i].0,
                if params[i].1 == "$exists"@ {
                    FieldCondView::Present
                } else if params[i].1.len() == 0 {
                    FieldCondView::Absent
                } else {
                    FieldCondView::Equals(params[i].1)
                },
            ),
        ),
{
    reveal_strlit("$count");
    reveal_strlit("$group");
    reveal_strlit("$sort");
    reveal_strlit("$limit");
    reveal_strlit("$skip");
    let k = params[i].0;
    let v = params[i].1;
    assert(k != "$count"@) by {
        if k == "$count"@ {
            assert(dollar_prefixed(k));
        }
    }
    assert(k != "$group"@) by {
        if k == "$group"@ {
            assert(dollar_prefixed(k));
        }
    }
    assert(k != "$sort"@) by {
        if k == "$sort"@ {
            assert(dollar_prefixed(k));
        }
    }
    assert(k != "$limit"@) by {
        if k == "$limit"@ {
            assert(dollar_prefixed(k));
        }
    }
    assert(k != "$skip"@) by {
        if k == "$skip"@ {
            assert(dollar_prefixed(k));
        }
    }
    assert(effect_of(k, v) is Cond);
    lemma_conds_contains(params, i);
}

proof fn lemma_explicit_sort_found(params: ParamsView)
    requires
        unique_keys(params),
    ensures
        explicit_sort_of(params) == (match found_value(params, "$sort"@) {
            None => None::<SortView>,
            Some(v) => if v == "$exists"@ || v.len() == 0 || v == "$addToSet"@ || v
                == "$project"@ {
                None::<SortView>
            } else if dollar_prefixed(v) {
                Some(SortView::Asc(stripped_leading(v, '$')))
            } else {
                Some(SortView::Desc(v))
            },
        }),
    decreases params.len(),
{
    reveal_strlit("$sort");
    reveal_strlit("$count");
    reveal_strlit("$group");
    if params.len() > 0 {
        let l = params.last();
        lemma_unique_drop_last(params);
        lemma_explicit_sort_found(params.drop_last());
        if l.0 == "$sort"@ {
            lemma_no_key_no_found(params.drop_last(), "$sort"@);
            assert(dollar_prefixed(l.0));
            assert("$sort"@.len() == 5);
            assert("$count"@.len() == 6);
            assert("$group"@.len() == 6);
        }
    }
}

/// Sort-resolution law, a function of the parameter mapping alone: an
/// explicit, recognized `$sort` parameter decides the sort wherever it
/// stands among the parameters; without one, a requested grouping sorts
/// by the member count descending; without either, the ingestion
/// timestamp orders descending.
pub proof fn lemma_sort_resolution(params: ParamsView)
    requires
        unique_keys(params),
    ensures
        (match found_value(params, "$sort"@) {
            None => sort_of(params) == grouping_sort(params),
            Some(v) => if v == "$exists"@ || v.len() == 0 || v == "$addToSet"@ || v
                == "$project"@ {
                sort_of(params) == grouping_sort(params)
            } else if dollar_prefixed(v) {
                sort_of(params) == SortView::Asc(stripped_leading(v, '$'))
            } else {
                sort_of(params) == SortView::Desc(v)
            },
        }),
{
    lemma_explicit_sort_found(params);
}

/// Mapping law: under unique keys, what `found_value` returns — and with
/// it every pipeline component the other laws characterize through it —
/// depends only on which entries the mapping holds, not on their order.
pub proof fn lemma_found_value_is_lookup(params: ParamsView, k: Seq<char>)
    requires
        unique_keys(params),
    ensures
        (match found_value(params, k) {
            Some(v) => params.contains((k, v)),
            None => forall|j: int| 0 <= j < params.len() ==> (#[trigger] params[j]).0 != k,
        }),
        forall|v: Seq<char>| params.contains((k, v)) ==> found_value(params, k) == Some(v),
    decreases params.len(),
{
    if params.len() > 0 {
        let l = params.last();
        lemma_unique_drop_last(params);
        lemma_found_value_is_lookup(params.drop_last(), k);
        if l.0 == k {
            assert(params[params.len() - 1] == (k, l.1));
            assert(params.contains((k, l.1)));
            assert forall|v: Seq<char>| params.contains((k, v)) implies found_value(params, k)
                == Some(v) by {
                let w = choose|w: int| 0 <= w < params.len() && params[w] == (k, v);
                if w < params.len() - 1 {
                    assert(params[w].0 != params[params.len() - 1].0);
                }
            }
        } else {
            match found_value(params.drop_last(), k) {
                Some(v) => {
                    let w = choose|w: int|
                        0 <= w < params.drop_last().len() && params.drop_last()[w] == (k, v);
                    assert(params[w] == (k, v));
                    assert(params.contains((k, v)));
                },
                None => {
                    assert forall|j: int| 0 <= j < params.len() implies (
                    #[trigger] params[j]).0 != k by {
                        if j < params.len() - 1 {
                            assert(params.drop_last()[j] == params[j]);
                        }
                    }
                },
            }
            assert forall|v: Seq<char>| params.contains((k, v)) implies found_value(params, k)
                == Some(v) by {
                let w = choose|w: int| 0 <= w < params.len() && params[w] == (k, v);
                assert(w < params.len() - 1);
                assert(params.drop_last()[w] == params[w]);
                assert(params.drop_last().contains((k, v)));
            }
        }
    }
}

proof fn lemma_group_found(params: ParamsView)
    requires
        unique_keys(params),
    ensures
        group_key_of(params) == (match found_value(params, "$group"@) {
            None => None::<GroupKeyView>,
            Some(v) => if v == "$exists"@ || v.len() == 0 || v == "$addToSet"@ || v
                == "$project"@ {
                None::<GroupKeyView>
            } else if v.contains('%') {
                Some(GroupKeyView::DateBucket(v))
            } else {
                Some(GroupKeyView::Field(v))
            },
        }),
    decreases params.len(),
{
    reveal_strlit("$group");
    reveal_strlit("$count");
    if params.len() > 0 {
        let l = params.last();
        lemma_unique_drop_last(params);
        lemma_group_found(params.drop_last());
        if l.0 == "$group"@ {
            lemma_no_key_no_found(params.drop_last(), "$group"@);
            assert(dollar_prefixed(l.0));
            assert("$group"@ != "$count"@) by {
                assert("$group"@[1] != "$count"@[1]);
            }
        }
    }
}

/// Grouping law: a `$group` parameter with an unreserved value makes the
/// second stage a group whose identifier references that value — bucketed
/// by date when the value holds a `%`, literally otherwise — with the
/// member-count accumulator (assuming no `$count`).
pub proof fn lemma_group_stage(params: ParamsView, now: int, v: Seq<char>)
    requires
        unique_keys(params),
        count_of(params) is None,
        found_value(params, "$group"@) == Some(v),
        v != "$exists"@,
        v != "$addToSet"@,
        v != "$project"@,
        v.len() > 0,
    ensures
        compiled(params, now)[1] == StageView::Group(
            GroupView {
                key: Some(
                    if v.contains('%') {
                        GroupKeyView::DateBucket(v)
                    } else {
                        GroupKeyView::Field(v)
                    },
                ),
                distinct: distinct_of(params),
                counted: true,
            },
        ),
{
    lemma_group_found(params);
}

/// Assembly law: the stage order is fixed.  Every pipeline starts with the
/// match stage; a count request leaves exactly one more stage, and any
/// other pipeline is group-or-project, then sort, then limit, with a final
/// skip exactly when a parseable `$skip` was given.
pub proof fn lemma_assembly_shape(params: ParamsView, now: int)
    ensures
        compiled(params, now).len() >= 2,
        compiled(params, now)[0] == StageView::Match(match_of(params, now)),
        count_of(params) is Some ==> compiled(params, now).len() == 2 && compiled(
            params,
            now,
        )[1] is Count,
        count_of(params) is None ==> {
            let stages = compiled(params, now);
            &&& (stages.len() == if skip_of(params) is Some {
                5int
            } else {
                4int
            })
            &&& (stages[1] is Group <==> grouped(params))
            &&& (stages[1] is Project <==> !grouped(params))
            &&& stages[2] == StageView::Sort(sort_of(params))
            &&& stages[3] == StageView::Limit(limit_of(params))
            &&& (skip_of(params) matches Some(n) ==> stages[4] == StageView::Skip(n))
        },
{
}

// ---------------------------------------------------------------------------
// Boundary helpers: turning raw input into the compiler's mapping, and
// rendering a grouping field for the store.
// ---------------------------------------------------------------------------

/// The mapping an entry list denotes: a later value overwrites an earlier
/// one under the same key, in place, as an ordered document would store
/// them.  The result has unique keys.
pub open spec fn normalized(params: ParamsView) -> ParamsView
    decreases params.len(),
{
    if params.len() == 0 {
        Seq::empty()
    } else {
        upserted(normalized(params.drop_last()), params.last().0, params.last().1)
    }
}

proof fn lemma_normalized_unique(params: ParamsView)
    ensures
        unique_keys(normalized(params)),
    decreases params.len(),
{
    if params.len() > 0 {
        lemma_normalized_unique(params.drop_last());
        lemma_upserted_unique(normalized(params.drop_last()), params.last().0, params.last().1);
    }
}

/// Reduces raw key/value entries — query parameters as the transport hands
/// them over, possibly with repeated keys — to the mapping they denote,
/// exactly as `normalized` describes, ready for `compile`.
pub fn normalize_params(params: &Vec<(String, String)>) -> (r: Vec<(String, String)>)
    ensures
        r.deep_view() == normalized(params.deep_view()),
        unique_keys(r.deep_view()),
{
    let ghost pv = params.deep_view();
    let mut r: Vec<(String, String)> = Vec::new();
    proof {
        assert(pv.take(0) =~= Seq::<(Seq<char>, Seq<char>)>::empty());
        assert(r.deep_view() =~= normalized(pv.take(0)));
    }
    let n = params.len();
    let mut i: usize = 0;
    while i < n
        invariant
            n == params.len(),
            pv == params.deep_view(),
            pv.len() == n,
            0 <= i <= n,
            r.deep_view() == normalized(pv.take(i as int)),
            unique_keys(r.deep_view()),
        decreases n - i,
    {
        let ghost prev = pv.take(i as int);
        let ghost cur = pv.take(i as int + 1);
        let k = params[i].0.clone();
        let v = params[i].1.clone();
        proof {
            assert(cur.drop_last() =~= prev);
            assert(cur.last() == pv[i as int]);
            assert(pv[i as int] == (k@, v@));
            lemma_upserted_unique(r.deep_view(), k@, v@);
        }
        upsert_pair(&mut r, k, v);
        i = i + 1;
    }
    proof {
        assert(pv.take(n as int) =~= pv);
    }
    r
}

/// The store-native reference to a field: the name with the `$` sigil,
/// added unless it is already there.
pub fn field_reference(name: &str) -> (r: String)
    ensures
        dollar_prefixed(name@) ==> r@ == name@,
        !dollar_prefixed(name@) ==> r@ == seq!['$'] + name@,
{
    if first_is(name, '$') {
        name.to_owned()
    } else {
        let mut sigiled = "$".to_owned();
        sigiled.append(name);
        proof {
            reveal_strlit("$");
            assert(sigiled@ =~= seq!['$'] + name@);
        }
        sigiled
    }
}

} // verus!
