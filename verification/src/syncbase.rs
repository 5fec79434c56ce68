//! Resolution of `begin`/`end` lists, including syncbase values (`a.begin`,
//! `a.end+1s`) that refer to other animations.
//!
//! A resolved time is kept as the list of summands that produce it, added in
//! order; the caller turns each clock value into seconds. A reference back to
//! an animation that is already being resolved (a cycle) does not resolve.

use vstd::prelude::*;
use crate::clock::{
    begin_entry_spec, find_sync, lemma_find_sync_at, parse_begin_entry, raw_view, sync_at, term_views, RawBegin, RawView, SignedClock,
    SyncEdge, TermView, TimeTerm, ClockValue,
};
use crate::forms::{value_items, value_items_spec};
use crate::text::texts_of;
use crate::warnings::{quote, quoted};
use vstd::string::StringExecFns;

verus! {

broadcast use vstd::string::group_string_axioms;

/// What timing resolution reads of one animation element.
pub struct TimedElement {
    /// The element's `id` (empty when it has none).
    pub id: String,
    /// Its `begin` attribute.
    pub begin: Option<String>,
    /// Its `end` attribute.
    pub end: Option<String>,
    /// Whether its active duration is finite.
    pub finite_active: bool,
}

pub struct ElementView {
    pub id: Seq<char>,
    pub begin: Option<Seq<char>>,
    pub end: Option<Seq<char>>,
    pub finite_active: bool,
}

impl View for TimedElement {
    type V = ElementView;

    open spec fn view(&self) -> ElementView {
        ElementView {
            id: self.id@,
            begin: crate::declarations::opt_view(self.begin),
            end: crate::declarations::opt_view(self.end),
            finite_active: self.finite_active,
        }
    }
}

pub open spec fn element_views(e: Seq<TimedElement>) -> Seq<ElementView> {
    e.map_values(|x: TimedElement| x@)
}

/// A resolved `begin`/`end` value.
#[derive(Clone, Debug, PartialEq)]
pub enum Begin {
    /// The time that the terms add up to, added in order.
    Offset(Vec<TimeTerm>),
    /// `indefinite`.
    Indefinite,
}

pub enum BeginView {
    Offset(Seq<TermView>),
    Indefinite,
}

impl View for Begin {
    type V = BeginView;

    open spec fn view(&self) -> BeginView {
        match self {
            Begin::Offset(t) => BeginView::Offset(term_views(t@)),
            Begin::Indefinite => BeginView::Indefinite,
        }
    }
}

pub open spec fn begin_views(b: Seq<Begin>) -> Seq<BeginView> {
    b.map_values(|x: Begin| x@)
}

/// The index of the first element with the given id, or `nodes.len()`.
pub open spec fn node_index(nodes: Seq<ElementView>, id: Seq<char>) -> int
    decreases nodes.len(),
{
    if nodes.len() == 0 {
        0
    } else if node_index(nodes.drop_last(), id) < nodes.len() - 1 {
        node_index(nodes.drop_last(), id)
    } else if nodes.last().id == id {
        nodes.len() - 1
    } else {
        nodes.len() as int
    }
}

/// The entries of a list that parse, in order.
pub open spec fn parsed_entries(items: Seq<Seq<char>>) -> Seq<RawView>
    decreases items.len(),
{
    if items.len() == 0 {
        Seq::empty()
    } else {
        let prev = parsed_entries(items.drop_last());
        match begin_entry_spec(items.last()) {
            Some(r) => prev.push(r),
            None => prev,
        }
    }
}

/// An element's `begin` entries; no `begin` is a single zero offset.
pub open spec fn raw_list(begin: Option<Seq<char>>) -> Seq<RawView> {
    match begin {
        None => seq![RawView::Offset(TermView::Zero)],
        Some(v) => parsed_entries(value_items_spec(v)),
    }
}

/// Whether an `end` attribute has a non-blank entry.
pub open spec fn has_end(end: Option<Seq<char>>) -> bool {
    match end {
        Some(v) => value_items_spec(v).len() > 0,
        None => false,
    }
}

pub open spec fn room(nodes: Seq<ElementView>, visiting: Seq<int>) -> int {
    nodes.len() - visiting.len()
}

/// Resolves one entry, with the animations in `visiting` being resolved.
pub open spec fn resolve_raw_spec(raw: RawView, nodes: Seq<ElementView>, visiting: Seq<int>) -> Option<
    BeginView,
>
    decreases room(nodes, visiting), 1int, 0int,
{
    match raw {
        RawView::Offset(t) => Some(BeginView::Offset(seq![t])),
        RawView::Indefinite => Some(BeginView::Indefinite),
        RawView::SyncBase { id, edge, offset } => match syncbase_time(
            id,
            edge,
            offset,
            nodes,
            visiting,
        ) {
            Some(ts) => Some(BeginView::Offset(ts)),
            None => None,
        },
    }
}

/// `id.begin`/`id.end` plus `offset`: the first animation with that id,
/// unless it is already being resolved.
pub open spec fn syncbase_time(
    id: Seq<char>,
    edge: SyncEdge,
    offset: TermView,
    nodes: Seq<ElementView>,
    visiting: Seq<int>,
) -> Option<Seq<TermView>>
    decreases room(nodes, visiting), 0int, 0int,
{
    let t = node_index(nodes, id);
    if t >= nodes.len() || visiting.contains(t) || visiting.len() >= nodes.len() {
        None
    } else {
        let base = match edge {
            SyncEdge::Begin => single_begin_spec(t, nodes, visiting.push(t)),
            SyncEdge::End => end_instant_spec(t, nodes, visiting.push(t)),
        };
        match base {
            Some(b) => Some(b.push(offset)),
            None => None,
        }
    }
}

/// The offsets that the entries `raws` resolve to.
pub open spec fn instants(raws: Seq<RawView>, nodes: Seq<ElementView>, visiting: Seq<int>) -> Seq<
    Seq<TermView>,
>
    decreases room(nodes, visiting), 2int, raws.len(),
{
    if raws.len() == 0 {
        Seq::empty()
    } else {
        let prev = instants(raws.drop_last(), nodes, visiting);
        match resolve_raw_spec(raws.last(), nodes, visiting) {
            Some(BeginView::Offset(ts)) => prev.push(ts),
            _ => prev,
        }
    }
}

/// An element's begin, when exactly one of its entries resolves to an offset.
pub open spec fn single_begin_spec(t: int, nodes: Seq<ElementView>, visiting: Seq<int>) -> Option<
    Seq<TermView>,
>
    decreases room(nodes, visiting), 3int, 0int,
{
    let found = instants(raw_list(nodes[t].begin), nodes, visiting);
    if found.len() == 1 {
        Some(found[0])
    } else {
        None
    }
}

/// An element's end, when it has no `end` list, a single begin and a finite
/// active duration.
pub open spec fn end_instant_spec(t: int, nodes: Seq<ElementView>, visiting: Seq<int>) -> Option<
    Seq<TermView>,
>
    decreases room(nodes, visiting), 4int, 0int,
{
    if has_end(nodes[t].end) {
        None
    } else {
        match single_begin_spec(t, nodes, visiting) {
            Some(b) => if nodes[t].finite_active {
                Some(b.push(TermView::ActiveDuration(t)))
            } else {
                None
            },
            None => None,
        }
    }
}

pub open spec fn ints(s: Seq<usize>) -> Seq<int> {
    s.map_values(|x: usize| x as int)
}

/// No animation is visited twice, and each is one of the `n` elements.
pub open spec fn distinct_in_range(visiting: Seq<usize>, n: nat) -> bool {
    visiting.no_duplicates() && forall|i: int| 0 <= i < visiting.len() ==> #[trigger] visiting[i] < n
}

/// There is room for one more distinct element.
proof fn lemma_room_left(visiting: Seq<usize>, t: usize, n: nat)
    requires
        distinct_in_range(visiting, n),
        t < n,
        !visiting.contains(t),
    ensures
        visiting.len() < n,
{
    let s = visiting.push(t);
    assert(s.no_duplicates()) by {
        assert forall|i: int, j: int| 0 <= i < s.len() && 0 <= j < s.len() && i != j implies s[i]
            != s[j] by {
            if i < visiting.len() && j < visiting.len() {
                assert(s[i] == visiting[i] && s[j] == visiting[j]);
            } else if i == visiting.len() {
                assert(s[j] == visiting[j]);
            } else {
                assert(s[i] == visiting[i]);
            }
        }
    }
    let ints_s = s.map_values(|x: usize| x as int);
    assert(ints_s.no_duplicates()) by {
        assert forall|i: int, j: int|
            0 <= i < ints_s.len() && 0 <= j < ints_s.len() && i != j implies ints_s[i]
            != ints_s[j] by {
            assert(s[i] != s[j]);
        }
    }
    ints_s.unique_seq_to_set();
    vstd::set_lib::lemma_int_range(0, n as int);
    assert(ints_s.to_set().subset_of(vstd::set_lib::set_int_range(0, n as int))) by {
        assert forall|x: int| ints_s.to_set().contains(x) implies vstd::set_lib::set_int_range(
            0,
            n as int,
        ).contains(x) by {
            let i = choose|i: int| 0 <= i < ints_s.len() && ints_s[i] == x;
            if i < visiting.len() {
                assert(s[i] == visiting[i]);
            }
        }
    }
    vstd::set_lib::lemma_len_subset(ints_s.to_set(), vstd::set_lib::set_int_range(0, n as int));
}

fn find_element(nodes: &[TimedElement], id: &String) -> (r: usize)
    ensures
        r as int == node_index(element_views(nodes@), id@),
{
    let ghost nv = element_views(nodes@);
    let mut i: usize = 0;
    while i < nodes.len()
        invariant
            0 <= i <= nodes@.len(),
            nv == element_views(nodes@),
            nv.len() == nodes@.len(),
            node_index(nv.take(i as int), id@) == i,
        decreases nodes.len() - i,
    {
        assert(nv.take(i + 1).drop_last() =~= nv.take(i as int));
        assert(nv[i as int] == nodes@[i as int]@);
        if nodes[i].id == *id {
            proof {
                lemma_node_index_prefix(nv, id@, i + 1);
            }
            return i;
        }
        i = i + 1;
    }
    assert(nv.take(nv.len() as int) =~= nv);
    i
}

proof fn lemma_node_index_prefix(nodes: Seq<ElementView>, id: Seq<char>, k: int)
    requires
        0 < k <= nodes.len(),
        node_index(nodes.take(k), id) < k,
    ensures
        node_index(nodes, id) == node_index(nodes.take(k), id),
    decreases nodes.len() - k,
{
    if k < nodes.len() {
        assert(nodes.take(k + 1).drop_last() =~= nodes.take(k));
        lemma_node_index_prefix(nodes, id, k + 1);
    } else {
        assert(nodes.take(k) =~= nodes);
    }
}

fn is_visiting(visiting: &Vec<usize>, t: usize) -> (r: bool)
    ensures
        r == ints(visiting@).contains(t as int),
        r == visiting@.contains(t),
{
    let mut i: usize = 0;
    while i < visiting.len()
        invariant
            0 <= i <= visiting@.len(),
            forall|k: int| 0 <= k < i ==> visiting@[k] != t,
        decreases visiting.len() - i,
    {
        if visiting[i] == t {
            assert(ints(visiting@)[i as int] == t as int);
            return true;
        }
        i = i + 1;
    }
    proof {
        if ints(visiting@).contains(t as int) {
            let k = choose|k: int| 0 <= k < ints(visiting@).len() && ints(visiting@)[k] == t as int;
            assert(visiting@[k] == t);
        }
    }
    false
}

fn copy_clock(c: &ClockValue) -> (r: ClockValue)
    ensures
        r@ == c@,
{
    match c {
        ClockValue::Timecount(n, u) => ClockValue::Timecount(n.clone(), *u),
        ClockValue::Colon(h, m, s) => ClockValue::Colon(
            match h {
                Some(t) => Some(t.clone()),
                None => None,
            },
            m.clone(),
            s.clone(),
        ),
    }
}

fn copy_term(t: &TimeTerm) -> (r: TimeTerm)
    ensures
        r@ == t@,
{
    match t {
        TimeTerm::Zero => TimeTerm::Zero,
        TimeTerm::Clock(c) => TimeTerm::Clock(
            SignedClock { negative: c.negative, clock: copy_clock(&c.clock) },
        ),
        TimeTerm::ActiveDuration(i) => TimeTerm::ActiveDuration(*i),
    }
}

pub open spec fn opt_begin(r: Option<Begin>) -> Option<BeginView> {
    match r {
        Some(b) => Some(b@),
        None => None,
    }
}

pub open spec fn opt_terms(r: Option<Vec<TimeTerm>>) -> Option<Seq<TermView>> {
    match r {
        Some(t) => Some(term_views(t@)),
        None => None,
    }
}

/// An element's `begin` entries that parse.
fn raw_begin_list(begin: &Option<String>) -> (r: Vec<RawBegin>)
    ensures
        r@.map_values(|x: RawBegin| x@) == raw_list(crate::declarations::opt_view(*begin)),
{
    match begin {
        None => {
            let r = vec![RawBegin::Offset(TimeTerm::Zero)];
            assert(r@.map_values(|x: RawBegin| x@) =~= seq![RawView::Offset(TermView::Zero)]);
            r
        },
        Some(v) => {
            let items = value_items(v.as_str());
            let ghost iv = texts_of(items@);
            let mut out: Vec<RawBegin> = Vec::new();
            let mut i: usize = 0;
            while i < items.len()
                invariant
                    0 <= i <= items@.len(),
                    iv == texts_of(items@),
                    out@.map_values(|x: RawBegin| x@) == parsed_entries(iv.take(i as int)),
                decreases items.len() - i,
            {
                assert(iv.take(i + 1).drop_last() =~= iv.take(i as int));
                assert(iv.take(i + 1).last() == items@[i as int]@);
                if let Some(raw) = parse_begin_entry(items[i].as_str()) {
                    let ghost before = out@;
                    out.push(raw);
                    assert(out@.map_values(|x: RawBegin| x@) =~= before.map_values(
                        |x: RawBegin| x@,
                    ).push(raw@));
                }
                i = i + 1;
            }
            assert(iv.take(iv.len() as int) =~= iv);
            out
        },
    }
}

fn resolve_raw(raw: &RawBegin, nodes: &[TimedElement], visiting: &Vec<usize>) -> (r: Option<Begin>)
    requires
        distinct_in_range(visiting@, nodes@.len()),
    ensures
        opt_begin(r) == resolve_raw_spec(raw@, element_views(nodes@), ints(visiting@)),
    decreases nodes@.len() - visiting@.len(), 1int,
{
    match raw {
        RawBegin::Offset(t) => {
            let c = copy_term(t);
            let v = vec![c];
            assert(term_views(v@) =~= seq![t@]);
            Some(Begin::Offset(v))
        },
        RawBegin::Indefinite => Some(Begin::Indefinite),
        RawBegin::SyncBase { id, edge, offset } => {
            match syncbase_resolve(id, *edge, offset, nodes, visiting) {
                Some(ts) => Some(Begin::Offset(ts)),
                None => None,
            }
        },
    }
}

fn extended(visiting: &Vec<usize>, t: usize) -> (r: Vec<usize>)
    ensures
        r@ == visiting@.push(t),
        ints(r@) == ints(visiting@).push(t as int),
{
    let mut out: Vec<usize> = Vec::new();
    let mut i: usize = 0;
    while i < visiting.len()
        invariant
            0 <= i <= visiting@.len(),
            out@ == visiting@.take(i as int),
        decreases visiting.len() - i,
    {
        out.push(visiting[i]);
        assert(visiting@.take(i + 1) =~= visiting@.take(i as int).push(visiting@[i as int]));
        i = i + 1;
    }
    assert(visiting@.take(visiting@.len() as int) =~= visiting@);
    out.push(t);
    assert(ints(out@) =~= ints(visiting@).push(t as int));
    out
}

fn syncbase_resolve(
    id: &String,
    edge: SyncEdge,
    offset: &TimeTerm,
    nodes: &[TimedElement],
    visiting: &Vec<usize>,
) -> (r: Option<Vec<TimeTerm>>)
    requires
        distinct_in_range(visiting@, nodes@.len()),
    ensures
        opt_terms(r) == syncbase_time(id@, edge, offset@, element_views(nodes@), ints(visiting@)),
    decreases nodes@.len() - visiting@.len(), 0int,
{
    let t = find_element(nodes, id);
    if t >= nodes.len() {
        return None;
    }
    if is_visiting(visiting, t) {
        return None;
    }
    proof {
        lemma_room_left(visiting@, t, nodes@.len());
    }
    let next = extended(visiting, t);
    assert(distinct_in_range(next@, nodes@.len())) by {
        assert forall|i: int, j: int|
            0 <= i < next@.len() && 0 <= j < next@.len() && i != j implies next@[i] != next@[j] by {
            if i < visiting@.len() && j < visiting@.len() {
            } else if i == visiting@.len() {
                assert(next@[j] == visiting@[j]);
                assert(visiting@.contains(visiting@[j]));
            } else {
                assert(next@[i] == visiting@[i]);
                assert(visiting@.contains(visiting@[i]));
            }
        }
    }
    let base = match edge {
        SyncEdge::Begin => single_begin(t, nodes, &next),
        SyncEdge::End => end_instant(t, nodes, &next),
    };
    match base {
        Some(b) => {
            let mut b = b;
            let ghost before = b@;
            b.push(copy_term(offset));
            assert(term_views(b@) =~= term_views(before).push(offset@));
            Some(b)
        },
        None => None,
    }
}

fn single_begin(t: usize, nodes: &[TimedElement], visiting: &Vec<usize>) -> (r: Option<
    Vec<TimeTerm>,
>)
    requires
        t < nodes@.len(),
        distinct_in_range(visiting@, nodes@.len()),
    ensures
        opt_terms(r) == single_begin_spec(t as int, element_views(nodes@), ints(visiting@)),
    decreases nodes@.len() - visiting@.len(), 3int,
{
    let ghost nv = element_views(nodes@);
    let ghost vis = ints(visiting@);
    let raws = raw_begin_list(&nodes[t].begin);
    assert(nv[t as int] == nodes@[t as int]@);
    let ghost rv = raws@.map_values(|x: RawBegin| x@);
    let mut found: Vec<Vec<TimeTerm>> = Vec::new();
    let mut k: usize = 0;
    while k < raws.len()
        invariant
            0 <= k <= raws@.len(),
            distinct_in_range(visiting@, nodes@.len()),
            nv == element_views(nodes@),
            vis == ints(visiting@),
            rv == raws@.map_values(|x: RawBegin| x@),
            found@.map_values(|x: Vec<TimeTerm>| term_views(x@)) == instants(
                rv.take(k as int),
                nv,
                vis,
            ),
        decreases raws.len() - k,
    {
        assert(rv.take(k + 1).drop_last() =~= rv.take(k as int));
        assert(rv.take(k + 1).last() == raws@[k as int]@);
        let ghost before = found@;
        match resolve_raw(&raws[k], nodes, visiting) {
            Some(Begin::Offset(ts)) => {
                let ghost tv = term_views(ts@);
                found.push(ts);
                assert(found@.map_values(|x: Vec<TimeTerm>| term_views(x@)) =~= before.map_values(
                    |x: Vec<TimeTerm>| term_views(x@),
                ).push(tv));
            },
            _ => {},
        }
        k = k + 1;
    }
    assert(rv.take(rv.len() as int) =~= rv);
    if found.len() == 1 {
        let ghost fv = found@.map_values(|x: Vec<TimeTerm>| term_views(x@));
        assert(fv[0] == term_views(found@[0]@));
        found.pop()
    } else {
        None
    }
}

fn end_instant(t: usize, nodes: &[TimedElement], visiting: &Vec<usize>) -> (r: Option<
    Vec<TimeTerm>,
>)
    requires
        t < nodes@.len(),
        distinct_in_range(visiting@, nodes@.len()),
    ensures
        opt_terms(r) == end_instant_spec(t as int, element_views(nodes@), ints(visiting@)),
    decreases nodes@.len() - visiting@.len(), 4int,
{
    assert(element_views(nodes@)[t as int] == nodes@[t as int]@);
    let has_end_list = match &nodes[t].end {
        Some(e) => crate::smil::has_end_entries(Some(e.as_str())),
        None => false,
    };
    if has_end_list {
        return None;
    }
    match single_begin(t, nodes, visiting) {
        Some(b) => {
            if nodes[t].finite_active {
                let mut b = b;
                let ghost before = b@;
                b.push(TimeTerm::ActiveDuration(t));
                assert(term_views(b@) =~= term_views(before).push(TermView::ActiveDuration(t as int)));
                Some(b)
            } else {
                None
            }
        },
        None => None,
    }
}

/// A diagnostic about SMIL timing.
#[derive(Clone, Debug, PartialEq)]
pub enum TimingWarning {
    /// A `begin`/`end` entry that does not resolve (event values, cycles,
    /// unknown ids, malformed values).
    UnsupportedValue(String),
    /// `min` or `max`, which are not supported.
    UnsupportedAttribute(String),
}

pub enum TimingWarningView {
    UnsupportedValue(Seq<char>),
    UnsupportedAttribute(Seq<char>),
}

impl View for TimingWarning {
    type V = TimingWarningView;

    open spec fn view(&self) -> TimingWarningView {
        match self {
            TimingWarning::UnsupportedValue(s) => TimingWarningView::UnsupportedValue(s@),
            TimingWarning::UnsupportedAttribute(s) => TimingWarningView::UnsupportedAttribute(s@),
        }
    }
}

pub open spec fn timing_warning_message(w: TimingWarningView) -> Seq<char> {
    match w {
        TimingWarningView::UnsupportedValue(s) => quoted(
            "Unsupported animation begin/end value: '"@,
            s,
        ),
        TimingWarningView::UnsupportedAttribute(s) => quoted(
            "Unsupported SMIL timing attribute: '"@,
            s,
        ),
    }
}

impl TimingWarning {
    /// The text that is logged for this warning.
    pub fn message(&self) -> (r: String)
        ensures
            r@ == timing_warning_message(self@),
    {
        match self {
            TimingWarning::UnsupportedValue(s) => quote(
                "Unsupported animation begin/end value: '",
                s.as_str(),
            ),
            TimingWarning::UnsupportedAttribute(s) => quote(
                "Unsupported SMIL timing attribute: '",
                s.as_str(),
            ),
        }
    }
}

/// The entries of a list resolved in order, with those that do not resolve.
pub open spec fn resolve_entries(items: Seq<Seq<char>>, nodes: Seq<ElementView>, visiting: Seq<int>) -> (
    Seq<BeginView>,
    Seq<Seq<char>>,
)
    decreases items.len(),
{
    if items.len() == 0 {
        (Seq::empty(), Seq::empty())
    } else {
        let (done, bad) = resolve_entries(items.drop_last(), nodes, visiting);
        let e = items.last();
        match begin_entry_spec(e) {
            Some(raw) => match resolve_raw_spec(raw, nodes, visiting) {
                Some(b) => (done.push(b), bad),
                None => (done, bad.push(e)),
            },
            None => (done, bad.push(e)),
        }
    }
}

/// A `begin` (`default_zero`) or `end` list of the animation at `index`:
/// absent, it is a single zero offset or nothing.
pub open spec fn timing_list_spec(
    value: Option<Seq<char>>,
    default_zero: bool,
    nodes: Seq<ElementView>,
    index: int,
) -> (Seq<BeginView>, Seq<Seq<char>>) {
    match value {
        None => (
            if default_zero {
                seq![BeginView::Offset(seq![TermView::Zero])]
            } else {
                Seq::empty()
            },
            Seq::empty(),
        ),
        Some(v) => resolve_entries(value_items_spec(v), nodes, seq![index]),
    }
}

/// Resolves a `begin` or `end` list of the animation at `index` among
/// `nodes`, the document's animation elements; returns the resolved values
/// and the entries that do not resolve.
pub fn resolve_timing_list(
    nodes: &[TimedElement],
    index: usize,
    value: Option<&str>,
    default_zero: bool,
) -> (r: (Vec<Begin>, Vec<String>))
    requires
        index < nodes@.len(),
    ensures
        (begin_views(r.0@), texts_of(r.1@)) == timing_list_spec(
            crate::forms::str_opt(value),
            default_zero,
            element_views(nodes@),
            index as int,
        ),
{
    let v = match value {
        None => {
            if default_zero {
                let zero = vec![TimeTerm::Zero];
                assert(term_views(zero@) =~= seq![TermView::Zero]);
                let r = vec![Begin::Offset(zero)];
                let e: Vec<String> = Vec::new();
                assert(begin_views(r@) =~= seq![BeginView::Offset(seq![TermView::Zero])]);
                assert(texts_of(e@) =~= Seq::empty());
                return (r, e);
            } else {
                let r: Vec<Begin> = Vec::new();
                let e: Vec<String> = Vec::new();
                assert(begin_views(r@) =~= Seq::empty());
                assert(texts_of(e@) =~= Seq::empty());
                return (r, e);
            }
        },
        Some(v) => v,
    };
    let visiting = vec![index];
    let ghost vis = ints(visiting@);
    assert(vis =~= seq![index as int]);
    assert(distinct_in_range(visiting@, nodes@.len()));
    let items = value_items(v);
    let ghost iv = texts_of(items@);
    let ghost nv = element_views(nodes@);
    let mut done: Vec<Begin> = Vec::new();
    let mut bad: Vec<String> = Vec::new();
    let mut i: usize = 0;
    while i < items.len()
        invariant
            0 <= i <= items@.len(),
            iv == texts_of(items@),
            nv == element_views(nodes@),
            vis == ints(visiting@),
            distinct_in_range(visiting@, nodes@.len()),
            (begin_views(done@), texts_of(bad@)) == resolve_entries(iv.take(i as int), nv, vis),
        decreases items.len() - i,
    {
        assert(iv.take(i + 1).drop_last() =~= iv.take(i as int));
        assert(iv.take(i + 1).last() == items@[i as int]@);
        let ghost d0 = done@;
        let ghost b0 = bad@;
        let resolved = match parse_begin_entry(items[i].as_str()) {
            Some(raw) => resolve_raw(&raw, nodes, &visiting),
            None => None,
        };
        match resolved {
            Some(b) => {
                done.push(b);
                assert(begin_views(done@) =~= begin_views(d0).push(b@));
            },
            None => {
                bad.push(items[i].clone());
                assert(texts_of(bad@) =~= texts_of(b0).push(items@[i as int]@));
            },
        }
        i = i + 1;
    }
    assert(iv.take(iv.len() as int) =~= iv);
    (done, bad)
}

/// The resolved timing of the animation at `index`: its `begin` list, its
/// `end` list, and the warnings (`min`, `max`, then unresolved entries).
pub fn resolve_timing(nodes: &[TimedElement], index: usize, has_min: bool, has_max: bool) -> (r: (
    Vec<Begin>,
    Vec<Begin>,
    Vec<TimingWarning>,
))
    requires
        index < nodes@.len(),
    ensures
        begin_views(r.0@) == timing_list_spec(
            element_views(nodes@)[index as int].begin,
            true,
            element_views(nodes@),
            index as int,
        ).0,
        begin_views(r.1@) == timing_list_spec(
            element_views(nodes@)[index as int].end,
            false,
            element_views(nodes@),
            index as int,
        ).0,
        r.2@.map_values(|w: TimingWarning| w@) == (if has_min {
            seq![TimingWarningView::UnsupportedAttribute("min"@)]
        } else {
            Seq::empty()
        }) + (if has_max {
            seq![TimingWarningView::UnsupportedAttribute("max"@)]
        } else {
            Seq::empty()
        }) + timing_list_spec(
            element_views(nodes@)[index as int].begin,
            true,
            element_views(nodes@),
            index as int,
        ).1.map_values(|e: Seq<char>| TimingWarningView::UnsupportedValue(e)) + timing_list_spec(
            element_views(nodes@)[index as int].end,
            false,
            element_views(nodes@),
            index as int,
        ).1.map_values(|e: Seq<char>| TimingWarningView::UnsupportedValue(e)),
{
    assert(element_views(nodes@)[index as int] == nodes@[index as int]@);
    let mut warnings: Vec<TimingWarning> = Vec::new();
    if has_min {
        warnings.push(TimingWarning::UnsupportedAttribute(String::from_str("min")));
    }
    if has_max {
        warnings.push(TimingWarning::UnsupportedAttribute(String::from_str("max")));
    }
    let ghost head = warnings@.map_values(|w: TimingWarning| w@);
    assert(head =~= (if has_min {
        seq![TimingWarningView::UnsupportedAttribute("min"@)]
    } else {
        Seq::empty()
    }) + (if has_max {
        seq![TimingWarningView::UnsupportedAttribute("max"@)]
    } else {
        Seq::empty()
    }));
    let begin_text = match &nodes[index].begin {
        Some(s) => Some(s.as_str()),
        None => None,
    };
    let end_text = match &nodes[index].end {
        Some(s) => Some(s.as_str()),
        None => None,
    };
    let (begins, bad_begins) = resolve_timing_list(nodes, index, begin_text, true);
    let (ends, bad_ends) = resolve_timing_list(nodes, index, end_text, false);
    let ghost bb = texts_of(bad_begins@);
    let ghost be = texts_of(bad_ends@);
    let mut i: usize = 0;
    while i < bad_begins.len()
        invariant
            0 <= i <= bad_begins@.len(),
            bb == texts_of(bad_begins@),
            warnings@.map_values(|w: TimingWarning| w@) == head + bb.take(i as int).map_values(
                |e: Seq<char>| TimingWarningView::UnsupportedValue(e),
            ),
        decreases bad_begins.len() - i,
    {
        let ghost before = warnings@;
        warnings.push(TimingWarning::UnsupportedValue(bad_begins[i].clone()));
        assert(bb[i as int] == bad_begins@[i as int]@);
        assert(warnings@.map_values(|w: TimingWarning| w@) =~= before.map_values(
            |w: TimingWarning| w@,
        ).push(TimingWarningView::UnsupportedValue(bb[i as int])));
        assert(bb.take(i + 1) =~= bb.take(i as int).push(bad_begins@[i as int]@));
        assert(warnings@.map_values(|w: TimingWarning| w@) =~= head + bb.take(i + 1).map_values(
            |e: Seq<char>| TimingWarningView::UnsupportedValue(e),
        ));
        i = i + 1;
    }
    assert(bb.take(bb.len() as int) =~= bb);
    let ghost mid = warnings@.map_values(|w: TimingWarning| w@);
    let mut j: usize = 0;
    while j < bad_ends.len()
        invariant
            0 <= j <= bad_ends@.len(),
            be == texts_of(bad_ends@),
            warnings@.map_values(|w: TimingWarning| w@) == mid + be.take(j as int).map_values(
                |e: Seq<char>| TimingWarningView::UnsupportedValue(e),
            ),
        decreases bad_ends.len() - j,
    {
        let ghost before = warnings@;
        warnings.push(TimingWarning::UnsupportedValue(bad_ends[j].clone()));
        assert(be[j as int] == bad_ends@[j as int]@);
        assert(warnings@.map_values(|w: TimingWarning| w@) =~= before.map_values(
            |w: TimingWarning| w@,
        ).push(TimingWarningView::UnsupportedValue(be[j as int])));
        assert(be.take(j + 1) =~= be.take(j as int).push(bad_ends@[j as int]@));
        assert(warnings@.map_values(|w: TimingWarning| w@) =~= mid + be.take(j + 1).map_values(
            |e: Seq<char>| TimingWarningView::UnsupportedValue(e),
        ));
        j = j + 1;
    }
    assert(be.take(be.len() as int) =~= be);
    (begins, ends, warnings)
}

/// Every active-duration summand names an element whose active duration is
/// finite, and every clock summand comes from a value that was read.
pub open spec fn terms_ok(ts: Seq<TermView>, nodes: Seq<ElementView>) -> bool {
    forall|k: int|
        0 <= k < ts.len() ==> (#[trigger] ts[k] matches TermView::ActiveDuration(t) ==> 0 <= t
            < nodes.len() && nodes[t].finite_active)
}

pub open spec fn raw_ok(raw: RawView, nodes: Seq<ElementView>) -> bool {
    match raw {
        RawView::Offset(t) => terms_ok(seq![t], nodes),
        RawView::Indefinite => true,
        RawView::SyncBase { offset, .. } => terms_ok(seq![offset], nodes),
    }
}

proof fn lemma_parsed_entries_ok(items: Seq<Seq<char>>, nodes: Seq<ElementView>)
    ensures
        forall|k: int|
            0 <= k < parsed_entries(items).len() ==> raw_ok(#[trigger] parsed_entries(items)[k], nodes),
    decreases items.len(),
{
    if items.len() > 0 {
        lemma_parsed_entries_ok(items.drop_last(), nodes);
        let p = parsed_entries(items.drop_last());
        match begin_entry_spec(items.last()) {
            Some(r) => {
                assert forall|k: int| 0 <= k < p.push(r).len() implies raw_ok(
                    #[trigger] p.push(r)[k],
                    nodes,
                ) by {
                    if k < p.len() {
                        assert(p.push(r)[k] == p[k]);
                    } else {
                        lemma_entry_ok(items.last(), nodes);
                    }
                }
            },
            None => {},
        }
    }
}

proof fn lemma_node_index_bounds(nodes: Seq<ElementView>, id: Seq<char>)
    ensures
        0 <= node_index(nodes, id) <= nodes.len(),
    decreases nodes.len(),
{
    if nodes.len() > 0 {
        lemma_node_index_bounds(nodes.drop_last(), id);
    }
}

proof fn lemma_entry_ok(entry: Seq<char>, nodes: Seq<ElementView>)
    ensures
        begin_entry_spec(entry) matches Some(r) ==> raw_ok(r, nodes),
{
    if let Some(r) = begin_entry_spec(entry) {
        match r {
            RawView::Offset(t) => {
                assert(t is Clock);
                assert(seq![t][0] == t);
            },
            RawView::Indefinite => {},
            RawView::SyncBase { offset, .. } => {
                let e = crate::text::trim(entry);
                lemma_find_sync_at(e, ".begin"@, 0);
                lemma_find_sync_at(e, ".end"@, 0);
                assert(offset is Zero || offset is Clock);
                assert(seq![offset][0] == offset);
            },
        }
    }
}

proof fn lemma_raw_list_ok(begin: Option<Seq<char>>, nodes: Seq<ElementView>)
    ensures
        forall|k: int| 0 <= k < raw_list(begin).len() ==> raw_ok(#[trigger] raw_list(begin)[k], nodes),
{
    match begin {
        None => {
            assert(seq![RawView::Offset(TermView::Zero)][0] == RawView::Offset(TermView::Zero));
            assert(seq![TermView::Zero][0] == TermView::Zero);
        },
        Some(v) => lemma_parsed_entries_ok(value_items_spec(v), nodes),
    }
}

proof fn lemma_resolve_raw_ok(raw: RawView, nodes: Seq<ElementView>, visiting: Seq<int>)
    requires
        raw_ok(raw, nodes),
    ensures
        resolve_raw_spec(raw, nodes, visiting) matches Some(BeginView::Offset(ts)) ==> terms_ok(
            ts,
            nodes,
        ),
    decreases room(nodes, visiting), 1int, 0int,
{
    match raw {
        RawView::SyncBase { id, edge, offset } => {
            lemma_syncbase_ok(id, edge, offset, nodes, visiting);
        },
        _ => {},
    }
}

proof fn lemma_syncbase_ok(
    id: Seq<char>,
    edge: SyncEdge,
    offset: TermView,
    nodes: Seq<ElementView>,
    visiting: Seq<int>,
)
    requires
        terms_ok(seq![offset], nodes),
    ensures
        syncbase_time(id, edge, offset, nodes, visiting) matches Some(ts) ==> terms_ok(ts, nodes),
    decreases room(nodes, visiting), 0int, 0int,
{
    let t = node_index(nodes, id);
    lemma_node_index_bounds(nodes, id);
    if !(t >= nodes.len() || visiting.contains(t) || visiting.len() >= nodes.len()) {
        let v2 = visiting.push(t);
        let base = match edge {
            SyncEdge::Begin => {
                lemma_single_begin_ok(t, nodes, v2);
                single_begin_spec(t, nodes, v2)
            },
            SyncEdge::End => {
                lemma_end_instant_ok(t, nodes, v2);
                end_instant_spec(t, nodes, v2)
            },
        };
        if let Some(b) = base {
            assert(seq![offset][0] == offset);
            assert forall|k: int| 0 <= k < b.push(offset).len() implies (#[trigger] b.push(
                offset,
            )[k] matches TermView::ActiveDuration(u) ==> 0 <= u < nodes.len()
                && nodes[u].finite_active) by {
                if k < b.len() {
                    assert(b.push(offset)[k] == b[k]);
                }
            }
        }
    }
}

proof fn lemma_instants_ok(raws: Seq<RawView>, nodes: Seq<ElementView>, visiting: Seq<int>)
    requires
        forall|k: int| 0 <= k < raws.len() ==> raw_ok(#[trigger] raws[k], nodes),
    ensures
        forall|k: int|
            0 <= k < instants(raws, nodes, visiting).len() ==> terms_ok(
                #[trigger] instants(raws, nodes, visiting)[k],
                nodes,
            ),
    decreases room(nodes, visiting), 2int, raws.len(),
{
    if raws.len() > 0 {
        let p = raws.drop_last();
        assert forall|k: int| 0 <= k < p.len() implies raw_ok(#[trigger] p[k], nodes) by {
            assert(p[k] == raws[k]);
        }
        lemma_instants_ok(p, nodes, visiting);
        assert(raw_ok(raws[raws.len() - 1], nodes));
        lemma_resolve_raw_ok(raws.last(), nodes, visiting);
        let prev = instants(p, nodes, visiting);
        match resolve_raw_spec(raws.last(), nodes, visiting) {
            Some(BeginView::Offset(ts)) => {
                assert forall|k: int| 0 <= k < prev.push(ts).len() implies terms_ok(
                    #[trigger] prev.push(ts)[k],
                    nodes,
                ) by {
                    if k < prev.len() {
                        assert(prev.push(ts)[k] == prev[k]);
                    }
                }
            },
            _ => {},
        }
    }
}

proof fn lemma_single_begin_ok(t: int, nodes: Seq<ElementView>, visiting: Seq<int>)
    ensures
        single_begin_spec(t, nodes, visiting) matches Some(ts) ==> terms_ok(ts, nodes),
    decreases room(nodes, visiting), 3int, 0int,
{
    lemma_raw_list_ok(nodes[t].begin, nodes);
    lemma_instants_ok(raw_list(nodes[t].begin), nodes, visiting);
    let found = instants(raw_list(nodes[t].begin), nodes, visiting);
    if found.len() == 1 {
        assert(terms_ok(found[0], nodes));
    }
}

proof fn lemma_end_instant_ok(t: int, nodes: Seq<ElementView>, visiting: Seq<int>)
    requires
        0 <= t < nodes.len(),
    ensures
        end_instant_spec(t, nodes, visiting) matches Some(ts) ==> terms_ok(ts, nodes),
    decreases room(nodes, visiting), 4int, 0int,
{
    lemma_single_begin_ok(t, nodes, visiting);
    if end_instant_spec(t, nodes, visiting) is Some {
        let b = single_begin_spec(t, nodes, visiting)->0;
        assert(nodes[t].finite_active);
        let r = b.push(TermView::ActiveDuration(t));
        assert forall|k: int| 0 <= k < r.len() implies (#[trigger] r[k] matches TermView::ActiveDuration(
            u,
        ) ==> 0 <= u < nodes.len() && nodes[u].finite_active) by {
            if k < b.len() {
                assert(r[k] == b[k]);
            }
        }
    }
}

/// Law: a resolved time only ever adds the active duration of an animation
/// whose active duration is finite.
pub proof fn lemma_resolved_times_are_finite_sums(
    value: Option<Seq<char>>,
    default_zero: bool,
    nodes: Seq<ElementView>,
    index: int,
)
    ensures
        forall|k: int|
            0 <= k < timing_list_spec(value, default_zero, nodes, index).0.len() ==> (
            #[trigger] timing_list_spec(value, default_zero, nodes, index).0[k] matches BeginView::Offset(
                ts,
            ) ==> terms_ok(ts, nodes)),
{
    match value {
        None => {
            assert(seq![TermView::Zero][0] == TermView::Zero);
        },
        Some(v) => lemma_resolve_entries_ok(value_items_spec(v), nodes, seq![index]),
    }
}

proof fn lemma_resolve_entries_ok(items: Seq<Seq<char>>, nodes: Seq<ElementView>, visiting: Seq<int>)
    ensures
        forall|k: int|
            0 <= k < resolve_entries(items, nodes, visiting).0.len() ==> (
            #[trigger] resolve_entries(items, nodes, visiting).0[k] matches BeginView::Offset(ts)
                ==> terms_ok(ts, nodes)),
    decreases items.len(),
{
    if items.len() > 0 {
        lemma_resolve_entries_ok(items.drop_last(), nodes, visiting);
        let (done, bad) = resolve_entries(items.drop_last(), nodes, visiting);
        let e = items.last();
        lemma_entry_ok(e, nodes);
        if let Some(raw) = begin_entry_spec(e) {
            lemma_resolve_raw_ok(raw, nodes, visiting);
            if let Some(b) = resolve_raw_spec(raw, nodes, visiting) {
                assert forall|k: int| 0 <= k < done.push(b).len() implies (
                #[trigger] done.push(b)[k] matches BeginView::Offset(ts) ==> terms_ok(ts, nodes)) by {
                    if k < done.len() {
                        assert(done.push(b)[k] == done[k]);
                    }
                }
            }
        }
    }
}

/// Law: an animation whose begin or end refers to itself does not resolve
/// that entry.
pub proof fn lemma_self_reference_unresolved(
    id: Seq<char>,
    edge: SyncEdge,
    offset: TermView,
    nodes: Seq<ElementView>,
    index: int,
)
    requires
        node_index(nodes, id) == index,
    ensures
        resolve_raw_spec(RawView::SyncBase { id, edge, offset }, nodes, seq![index]) is None,
{
    assert(seq![index].contains(index)) by {
        assert(seq![index][0] == index);
    }
}

} // verus!
