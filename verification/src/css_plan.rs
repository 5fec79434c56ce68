//! Which CSS animations an element gets: its `animation-name` entries matched
//! against the `@keyframes` rules, and each animated property checked and
//! gathered into keyframe entries.

use vstd::prelude::*;
use vstd::string::StringExecFns;
use crate::declarations::{OffsetView, KeyframeOffset, KeyframeView};
use crate::keyframes::{index_of_name, lemma_index_of_name, rule_views, KeyframesRule, RuleView};
use crate::metadata::{
    animated_properties, classify_property, classify_property_spec, properties_of, split_list,
    split_list_spec, CssProperty,
};
use crate::text::{chars_of, eq_ci, range_eq_ci_str, range_eq_str, string_of, trim, trim_bounds};
use crate::text::texts_of;
use crate::warnings::{quote, quoted};
use crate::css_values::{easing_spec, easing_view, parse_easing, CssEasing, CssEasingView};
use crate::paint::{parse_css_color, svg_color, Color};

verus! {

broadcast use vstd::string::group_string_axioms;

/// A diagnostic about a CSS animation.
#[derive(Clone, Debug, PartialEq)]
pub enum CssWarning {
    /// An `animation-name` entry that names no `@keyframes` rule.
    UnknownKeyframes(String),
    /// A property in `@keyframes` that cannot be animated.
    UnsupportedProperty(String),
    /// A custom property or a `var()` value.
    Variables,
}

pub enum CssWarningView {
    UnknownKeyframes(Seq<char>),
    UnsupportedProperty(Seq<char>),
    Variables,
}

impl View for CssWarning {
    type V = CssWarningView;

    open spec fn view(&self) -> CssWarningView {
        match self {
            CssWarning::UnknownKeyframes(s) => CssWarningView::UnknownKeyframes(s@),
            CssWarning::UnsupportedProperty(s) => CssWarningView::UnsupportedProperty(s@),
            CssWarning::Variables => CssWarningView::Variables,
        }
    }
}

pub open spec fn css_warning_views(ws: Seq<CssWarning>) -> Seq<CssWarningView> {
    ws.map_values(|w: CssWarning| w@)
}

pub open spec fn css_warning_message(w: CssWarning) -> Seq<char> {
    match w {
        CssWarning::UnknownKeyframes(s) => quoted("Unknown keyframes name: '"@, s@),
        CssWarning::UnsupportedProperty(s) => quoted(
            "Unsupported CSS property in keyframes: '"@,
            s@,
        ),
        CssWarning::Variables => "CSS variables are not supported."@,
    }
}

impl CssWarning {
    /// The text that is logged for this warning.
    pub fn message(&self) -> (r: String)
        ensures
            r@ == css_warning_message(*self),
    {
        match self {
            CssWarning::UnknownKeyframes(s) => quote("Unknown keyframes name: '", s.as_str()),
            CssWarning::UnsupportedProperty(s) => quote(
                "Unsupported CSS property in keyframes: '",
                s.as_str(),
            ),
            CssWarning::Variables => String::from_str("CSS variables are not supported."),
        }
    }
}

/// What one `animation-name` entry refers to.
#[derive(Clone, Debug, PartialEq)]
pub enum NameMatch {
    /// A blank entry or `none`, which animates nothing.
    Skip,
    /// The (trimmed) name of no rule.
    Unknown(String),
    /// The index of the first rule of that name.
    Found(usize),
}

pub enum NameMatchView {
    Skip,
    Unknown(Seq<char>),
    Found(int),
}

impl View for NameMatch {
    type V = NameMatchView;

    open spec fn view(&self) -> NameMatchView {
        match self {
            NameMatch::Skip => NameMatchView::Skip,
            NameMatch::Unknown(s) => NameMatchView::Unknown(s@),
            NameMatch::Found(i) => NameMatchView::Found(*i as int),
        }
    }
}

pub open spec fn name_match_spec(name: Seq<char>, rules: Seq<RuleView>) -> NameMatchView {
    let t = trim(name);
    if t.len() == 0 || eq_ci(t, "none"@) {
        NameMatchView::Skip
    } else if index_of_name(rules, t) < rules.len() {
        NameMatchView::Found(index_of_name(rules, t))
    } else {
        NameMatchView::Unknown(t)
    }
}

/// Matches one `animation-name` entry against the `@keyframes` rules; names
/// compare exactly.
pub fn resolve_keyframes_name(name: &str, rules: &[KeyframesRule]) -> (r: NameMatch)
    ensures
        r@ == name_match_spec(name@, rule_views(rules@)),
{
    let v = chars_of(name);
    let (a, b) = trim_bounds(v.as_slice(), 0, v.len());
    assert(v@.subrange(0, v@.len() as int) =~= v@);
    if a == b || range_eq_ci_str(v.as_slice(), a, b, "none") {
        return NameMatch::Skip;
    }
    let t = string_of(v.as_slice(), a, b);
    assert(t@ == trim(name@));
    let ghost rv = rule_views(rules@);
    proof {
        lemma_index_of_name(rv, t@);
    }
    let mut i: usize = 0;
    while i < rules.len()
        invariant
            0 <= i <= rules@.len(),
            rv == rule_views(rules@),
            rv.len() == rules@.len(),
            t@ == trim(name@),
            t@.len() > 0 && !eq_ci(t@, "none"@),
            forall|k: int| 0 <= k < i ==> #[trigger] rv[k].name != t@,
        decreases rules.len() - i,
    {
        assert(rv[i as int] == rules@[i as int]@);
        if rules[i].name == t {
            proof {
                assert(rv[i as int].name == t@);
                lemma_index_of_name(rv, t@);
                if index_of_name(rv, t@) < i {
                    assert(rv[index_of_name(rv, t@)].name == t@);
                }
                if index_of_name(rv, t@) > i {
                    assert(rv[i as int].name != t@);
                }
                assert(index_of_name(rv, t@) == i);
                assert(t@ == trim(name@));
                assert(name_match_spec(name@, rv) == NameMatchView::Found(i as int));
            }
            return NameMatch::Found(i);
        }
        i = i + 1;
    }
    proof {
        lemma_index_of_name(rv, t@);
        if index_of_name(rv, t@) < rv.len() {
            assert(rv[index_of_name(rv, t@)].name == t@);
        }
    }
    NameMatch::Unknown(t)
}

/// Whether `p` occurs in `s`.
pub open spec fn contains_seq(s: Seq<char>, p: Seq<char>) -> bool {
    exists|i: int| 0 <= i && i + p.len() <= s.len() && #[trigger] s.subrange(i, i + p.len()) == p
}

/// Whether `needle` occurs in `hay` (`str::contains`).
pub fn contains_str(hay: &str, needle: &str) -> (r: bool)
    ensures
        r == contains_seq(hay@, needle@),
{
    let h = chars_of(hay);
    let n = chars_of(needle);
    if n.len() == 0 {
        assert(h@.subrange(0, 0 + n@.len() as int) =~= n@);
        return true;
    }
    if n.len() > h.len() {
        return false;
    }
    let mut i: usize = 0;
    while n.len() <= h.len() - i
        invariant
            h@ == hay@,
            n@ == needle@,
            1 <= n@.len() <= h@.len(),
            0 <= i <= h@.len(),
            forall|j: int|
                0 <= j < i ==> #[trigger] h@.subrange(j, j + n@.len()) != n@,
        decreases h.len() - i,
    {
        if range_eq_str(h.as_slice(), i, i + n.len(), needle) {
            return true;
        }
        i = i + 1;
    }
    false
}

/// One keyframe entry of a property: where it sits, its value text and the
/// keyframe's own timing function.
#[derive(Clone, Debug, PartialEq)]
pub struct PropertyEntry {
    pub offset: KeyframeOffset,
    pub value: String,
    pub timing_function: Option<String>,
}

pub struct EntryView {
    pub offset: OffsetView,
    pub value: Seq<char>,
    pub timing_function: Option<Seq<char>>,
}

impl View for PropertyEntry {
    type V = EntryView;

    open spec fn view(&self) -> EntryView {
        EntryView {
            offset: self.offset@,
            value: self.value@,
            timing_function: crate::declarations::opt_view(self.timing_function),
        }
    }
}

pub open spec fn entry_views(e: Seq<PropertyEntry>) -> Seq<EntryView> {
    e.map_values(|x: PropertyEntry| x@)
}

/// The index of the first declaration of `property` (by trimmed name,
/// ignoring ASCII case), or `decls.len()`.
pub open spec fn decl_index(decls: Seq<(Seq<char>, Seq<char>)>, property: Seq<char>) -> int
    decreases decls.len(),
{
    if decls.len() == 0 {
        0
    } else if decl_index(decls.drop_last(), property) < decls.len() - 1 {
        decl_index(decls.drop_last(), property)
    } else if eq_ci(trim(decls.last().0), property) {
        decls.len() - 1
    } else {
        decls.len() as int
    }
}

proof fn lemma_decl_index(decls: Seq<(Seq<char>, Seq<char>)>, property: Seq<char>)
    ensures
        0 <= decl_index(decls, property) <= decls.len(),
        decl_index(decls, property) < decls.len() ==> eq_ci(
            trim(decls[decl_index(decls, property)].0),
            property,
        ),
        forall|k: int|
            0 <= k < decl_index(decls, property) ==> !eq_ci(trim(#[trigger] decls[k].0), property),
    decreases decls.len(),
{
    if decls.len() > 0 {
        let p = decls.drop_last();
        lemma_decl_index(p, property);
        assert forall|k: int| 0 <= k < p.len() implies #[trigger] decls[k] == p[k] by {}
    }
}

/// The entries one keyframe contributes: one per selector offset, when the
/// keyframe declares the property.
pub open spec fn keyframe_entries(k: KeyframeView, property: Seq<char>) -> Seq<EntryView> {
    let d = decl_index(k.declarations, property);
    if d < k.declarations.len() {
        k.offsets.map_values(
            |o: OffsetView|
                EntryView {
                    offset: o,
                    value: k.declarations[d].1,
                    timing_function: k.timing_function,
                },
        )
    } else {
        Seq::empty()
    }
}

/// A property's entries over the keyframes, in source order.
pub open spec fn entries_spec(keyframes: Seq<KeyframeView>, property: Seq<char>) -> Seq<EntryView>
    decreases keyframes.len(),
{
    if keyframes.len() == 0 {
        Seq::empty()
    } else {
        entries_spec(keyframes.drop_last(), property) + keyframe_entries(keyframes.last(), property)
    }
}


fn copy_offset(o: &KeyframeOffset) -> (r: KeyframeOffset)
    ensures
        r@ == o@,
{
    match o {
        KeyframeOffset::From => KeyframeOffset::From,
        KeyframeOffset::To => KeyframeOffset::To,
        KeyframeOffset::Percent(s) => KeyframeOffset::Percent(s.clone()),
    }
}

fn copy_text(o: &Option<String>) -> (r: Option<String>)
    ensures
        crate::declarations::opt_view(r) == crate::declarations::opt_view(*o),
{
    match o {
        Some(s) => Some(s.clone()),
        None => None,
    }
}

/// The index of the first declaration of `property`, or `decls.len()`.
fn find_declaration(decls: &Vec<(String, String)>, property: &[char]) -> (r: usize)
    ensures
        r as int == decl_index(crate::declarations::decl_views(decls@), property@),
{
    let ghost dv = crate::declarations::decl_views(decls@);
    proof {
        lemma_decl_index(dv, property@);
    }
    let mut i: usize = 0;
    while i < decls.len()
        invariant
            0 <= i <= decls@.len(),
            dv == crate::declarations::decl_views(decls@),
            dv.len() == decls@.len(),
            forall|k: int| 0 <= k < i ==> !eq_ci(trim(#[trigger] dv[k].0), property@),
        decreases decls.len() - i,
    {
        let name = chars_of(decls[i].0.as_str());
        let (a, b) = trim_bounds(name.as_slice(), 0, name.len());
        assert(name@.subrange(0, name@.len() as int) =~= name@);
        assert(dv[i as int].0 == decls@[i as int].0@);
        if crate::text::range_eq_ci(name.as_slice(), a, b, property) {
            proof {
                lemma_decl_index(dv, property@);
                let d = decl_index(dv, property@);
                if d > i {
                    assert(!eq_ci(trim(dv[i as int].0), property@));
                }
                if d < i {
                    assert(eq_ci(trim(dv[d].0), property@));
                }
            }
            return i;
        }
        i = i + 1;
    }
    proof {
        lemma_decl_index(dv, property@);
        let d = decl_index(dv, property@);
        if d < dv.len() {
            assert(eq_ci(trim(dv[d].0), property@));
        }
    }
    decls.len()
}

/// Gathers a single property's entries in source order: one per selector
/// offset of every keyframe that declares it (its first declaration there).
pub fn property_entries(rule: &KeyframesRule, property: &str) -> (r: Vec<PropertyEntry>)
    ensures
        entry_views(r@) == entries_spec(rule@.keyframes, property@),
{
    let p = chars_of(property);
    let mut out: Vec<PropertyEntry> = Vec::new();
    let ghost kv = rule@.keyframes;
    let mut k: usize = 0;
    while k < rule.keyframes.len()
        invariant
            0 <= k <= rule.keyframes@.len(),
            kv == rule@.keyframes,
            kv.len() == rule.keyframes@.len(),
            p@ == property@,
            entry_views(out@) == entries_spec(kv.take(k as int), property@),
        decreases rule.keyframes.len() - k,
    {
        let kf = &rule.keyframes[k];
        assert(kv[k as int] == kf@);
        assert(kv.take(k + 1).drop_last() =~= kv.take(k as int));
        let d = find_declaration(&kf.declarations, p.as_slice());
        let ghost base = entry_views(out@);
        let ghost added = keyframe_entries(kf@, property@);
        if d < kf.declarations.len() {
            let value = &kf.declarations[d].1;
            assert(crate::declarations::decl_views(kf.declarations@)[d as int].1 == value@);
            let mut j: usize = 0;
            while j < kf.offsets.len()
                invariant
                    0 <= j <= kf.offsets@.len(),
                    d < kf.declarations@.len(),
                    d as int == decl_index(kf@.declarations, property@),
                    value@ == kf@.declarations[d as int].1,
                    added == keyframe_entries(kf@, property@),
                    added.len() == kf.offsets@.len(),
                    entry_views(out@) == base + added.take(j as int),
                decreases kf.offsets.len() - j,
            {
                let entry = PropertyEntry {
                    offset: copy_offset(&kf.offsets[j]),
                    value: value.clone(),
                    timing_function: copy_text(&kf.timing_function),
                };
                assert(entry@ == added[j as int]);
                let ghost before = out@;
                out.push(entry);
                assert(entry_views(out@) =~= entry_views(before).push(entry@));
                assert(added.take(j + 1) =~= added.take(j as int).push(added[j as int]));
                j = j + 1;
            }
            assert(added.take(added.len() as int) =~= added);
        } else {
            assert(added =~= Seq::<EntryView>::empty());
        }
        assert(entry_views(out@) =~= base + added);
        k = k + 1;
    }
    assert(kv.take(kv.len() as int) =~= kv);
    out
}


/// A custom property name (`--name`).
pub open spec fn is_custom_property(p: Seq<char>) -> bool {
    p.len() >= 2 && p[0] == '-' && p[1] == '-'
}

/// Whether some entry's value uses `var(`.
pub open spec fn uses_variables(entries: Seq<EntryView>) -> bool {
    exists|i: int| 0 <= i < entries.len() && contains_seq(#[trigger] entries[i].value, "var("@)
}

/// Checks one animated property of a rule: custom properties and `var()`
/// values are refused, as are properties that cannot be animated on the
/// element; otherwise its class and entries in source order.
pub open spec fn check_property_spec(
    rule: RuleView,
    property: Seq<char>,
    is_stop: bool,
    is_path: bool,
) -> Result<(CssProperty, Seq<EntryView>), CssWarningView> {
    let p = trim(property);
    if is_custom_property(p) {
        Err(CssWarningView::Variables)
    } else {
        match classify_property_spec(p, is_stop, is_path) {
            None => Err(CssWarningView::UnsupportedProperty(p)),
            Some(c) => {
                let e = entries_spec(rule.keyframes, p);
                if uses_variables(e) {
                    Err(CssWarningView::Variables)
                } else {
                    Ok((c, e))
                }
            },
        }
    }
}

pub open spec fn check_view(r: Result<(CssProperty, Vec<PropertyEntry>), CssWarning>) -> Result<
    (CssProperty, Seq<EntryView>),
    CssWarningView,
> {
    match r {
        Ok((c, e)) => Ok((c, entry_views(e@))),
        Err(w) => Err(w@),
    }
}

/// Checks one property of `rule` for an element (`is_stop`: a `<stop>`;
/// `is_path`: a `<path>`).
pub fn check_property(rule: &KeyframesRule, property: &str, is_stop: bool, is_path: bool) -> (r:
    Result<(CssProperty, Vec<PropertyEntry>), CssWarning>)
    ensures
        check_view(r) == check_property_spec(rule@, property@, is_stop, is_path),
{
    let v = chars_of(property);
    let (a, b) = trim_bounds(v.as_slice(), 0, v.len());
    assert(v@.subrange(0, v@.len() as int) =~= v@);
    let p = string_of(v.as_slice(), a, b);
    if b - a >= 2 && v[a] == '-' && v[a + 1] == '-' {
        return Err(CssWarning::Variables);
    }
    let class = match classify_property(p.as_str(), is_stop, is_path) {
        Some(c) => c,
        None => return Err(CssWarning::UnsupportedProperty(p)),
    };
    let entries = property_entries(rule, p.as_str());
    let ghost ev = entry_views(entries@);
    let mut i: usize = 0;
    while i < entries.len()
        invariant
            0 <= i <= entries@.len(),
            ev == entry_views(entries@),
            ev.len() == entries@.len(),
            p@ == trim(property@),
            !is_custom_property(p@),
            classify_property_spec(p@, is_stop, is_path) == Some(class),
            ev == entries_spec(rule@.keyframes, p@),
            forall|k: int| 0 <= k < i ==> !contains_seq(#[trigger] ev[k].value, "var("@),
        decreases entries.len() - i,
    {
        assert(ev[i as int].value == entries@[i as int].value@);
        if contains_str(entries[i].value.as_str(), "var(") {
            assert(contains_seq(ev[i as int].value, "var("@));
            return Err(CssWarning::Variables);
        }
        i = i + 1;
    }
    Ok((class, entries))
}

/// One CSS animation to build: a property of the rule that an
/// `animation-name` entry names.
#[derive(Clone, Debug, PartialEq)]
pub struct PropertyPlan {
    /// The position of the entry in `animation-name`, which selects the
    /// entry of every other `animation-*` list.
    pub name_index: usize,
    /// The index of the `@keyframes` rule.
    pub rule: usize,
    /// The property's class.
    pub property: CssProperty,
    /// The property's name, trimmed.
    pub name: String,
    /// The property's entries in source order.
    pub entries: Vec<PropertyEntry>,
}

pub struct PlanView {
    pub name_index: int,
    pub rule: int,
    pub property: CssProperty,
    pub name: Seq<char>,
    pub entries: Seq<EntryView>,
}

impl View for PropertyPlan {
    type V = PlanView;

    open spec fn view(&self) -> PlanView {
        PlanView {
            name_index: self.name_index as int,
            rule: self.rule as int,
            property: self.property,
            name: self.name@,
            entries: entry_views(self.entries@),
        }
    }
}

pub open spec fn plan_views(p: Seq<PropertyPlan>) -> Seq<PlanView> {
    p.map_values(|x: PropertyPlan| x@)
}

/// The plans and warnings of the properties `props` of rule `r`.
pub open spec fn plan_properties(
    index: int,
    r: int,
    rule: RuleView,
    props: Seq<Seq<char>>,
    is_stop: bool,
    is_path: bool,
) -> (Seq<PlanView>, Seq<CssWarningView>)
    decreases props.len(),
{
    if props.len() == 0 {
        (Seq::empty(), Seq::empty())
    } else {
        let (plans, warns) = plan_properties(index, r, rule, props.drop_last(), is_stop, is_path);
        match check_property_spec(rule, props.last(), is_stop, is_path) {
            Ok((c, e)) => (
                plans.push(
                    PlanView {
                        name_index: index,
                        rule: r,
                        property: c,
                        name: trim(props.last()),
                        entries: e,
                    },
                ),
                warns,
            ),
            Err(w) => (plans, warns.push(w)),
        }
    }
}

/// The plans and warnings of one `animation-name` entry.
pub open spec fn plan_name(
    index: int,
    name: Seq<char>,
    rules: Seq<RuleView>,
    is_stop: bool,
    is_path: bool,
) -> (Seq<PlanView>, Seq<CssWarningView>) {
    match name_match_spec(name, rules) {
        NameMatchView::Skip => (Seq::empty(), Seq::empty()),
        NameMatchView::Unknown(t) => (Seq::empty(), seq![CssWarningView::UnknownKeyframes(t)]),
        NameMatchView::Found(r) => plan_properties(
            index,
            r,
            rules[r],
            properties_of(rules[r].keyframes),
            is_stop,
            is_path,
        ),
    }
}

/// The plans and warnings of the `animation-name` entries `names`.
pub open spec fn plan_names(names: Seq<Seq<char>>, rules: Seq<RuleView>, is_stop: bool, is_path: bool) -> (
    Seq<PlanView>,
    Seq<CssWarningView>,
)
    decreases names.len(),
{
    if names.len() == 0 {
        (Seq::empty(), Seq::empty())
    } else {
        let (plans, warns) = plan_names(names.drop_last(), rules, is_stop, is_path);
        let (p, w) = plan_name(names.len() - 1, names.last(), rules, is_stop, is_path);
        (plans + p, warns + w)
    }
}

/// Decides the CSS animations of an element from its `animation-name` list:
/// blank and `none` entries are skipped, an unknown name is reported, and
/// each property a named rule animates is checked and planned or reported.
pub fn plan_css_animations(
    animation_name: &str,
    rules: &[KeyframesRule],
    is_stop: bool,
    is_path: bool,
) -> (r: (Vec<PropertyPlan>, Vec<CssWarning>))
    ensures
        (plan_views(r.0@), css_warning_views(r.1@)) == plan_names(
            split_list_spec(animation_name@),
            rule_views(rules@),
            is_stop,
            is_path,
        ),
{
    let names = split_list(animation_name);
    let ghost nv = texts_of(names@);
    let ghost rv = rule_views(rules@);
    let mut plans: Vec<PropertyPlan> = Vec::new();
    let mut warnings: Vec<CssWarning> = Vec::new();
    let mut index: usize = 0;
    while index < names.len()
        invariant
            0 <= index <= names@.len(),
            nv == texts_of(names@),
            nv.len() == names@.len(),
            rv == rule_views(rules@),
            rv.len() == rules@.len(),
            (plan_views(plans@), css_warning_views(warnings@)) == plan_names(
                nv.take(index as int),
                rv,
                is_stop,
                is_path,
            ),
        decreases names.len() - index,
    {
        assert(nv.take(index + 1).drop_last() =~= nv.take(index as int));
        assert(nv.take(index + 1).last() == names@[index as int]@);
        let ghost p0 = plan_views(plans@);
        let ghost w0 = css_warning_views(warnings@);
        match resolve_keyframes_name(names[index].as_str(), rules) {
            NameMatch::Skip => {
                assert(p0 + Seq::<PlanView>::empty() =~= p0);
                assert(w0 + Seq::<CssWarningView>::empty() =~= w0);
            },
            NameMatch::Unknown(t) => {
                let ghost tv = t@;
                warnings.push(CssWarning::UnknownKeyframes(t));
                assert(css_warning_views(warnings@) =~= w0 + seq![
                    CssWarningView::UnknownKeyframes(tv),
                ]);
                assert(p0 + Seq::<PlanView>::empty() =~= p0);
            },
            NameMatch::Found(r) => {
                let rule = &rules[r];
                assert(rv[r as int] == rule@);
                let props = animated_properties(rule);
                let ghost pv = texts_of(props@);
                let mut j: usize = 0;
                assert(p0 + plan_properties(index as int, r as int, rule@, pv.take(0), is_stop, is_path).0 =~= p0);
                assert(w0 + plan_properties(index as int, r as int, rule@, pv.take(0), is_stop, is_path).1 =~= w0);
                while j < props.len()
                    invariant
                        0 <= j <= props@.len(),
                        pv == texts_of(props@),
                        pv.len() == props@.len(),
                        plan_views(plans@) == p0 + plan_properties(
                            index as int,
                            r as int,
                            rule@,
                            pv.take(j as int),
                            is_stop,
                            is_path,
                        ).0,
                        css_warning_views(warnings@) == w0 + plan_properties(
                            index as int,
                            r as int,
                            rule@,
                            pv.take(j as int),
                            is_stop,
                            is_path,
                        ).1,
                    decreases props.len() - j,
                {
                    assert(pv.take(j + 1).drop_last() =~= pv.take(j as int));
                    assert(pv.take(j + 1).last() == props@[j as int]@);
                    let ghost before_p = plans@;
                    let ghost before_w = warnings@;
                    match check_property(rule, props[j].as_str(), is_stop, is_path) {
                        Ok((class, entries)) => {
                            let pn = chars_of(props[j].as_str());
                            let (a, b) = trim_bounds(pn.as_slice(), 0, pn.len());
                            assert(pn@.subrange(0, pn@.len() as int) =~= pn@);
                            let plan = PropertyPlan {
                                name_index: index,
                                rule: r,
                                property: class,
                                name: string_of(pn.as_slice(), a, b),
                                entries,
                            };
                            plans.push(plan);
                            assert(plan_views(plans@) =~= plan_views(before_p).push(plan@));
                        },
                        Err(w) => {
                            warnings.push(w);
                            assert(css_warning_views(warnings@) =~= css_warning_views(before_w).push(w@));
                        },
                    }
                    j = j + 1;
                }
                assert(pv.take(pv.len() as int) =~= pv);
            },
        }
        index = index + 1;
    }
    assert(nv.take(nv.len() as int) =~= nv);
    (plans, warnings)
}


/// One keyframe of a CSS track: where it sits, its value and its own easing.
pub struct TrackKeyframe<T> {
    pub offset: KeyframeOffset,
    pub value: T,
    pub easing: Option<CssEasing>,
}

pub struct TrackKeyframeView<T> {
    pub offset: OffsetView,
    pub value: T,
    pub easing: Option<CssEasingView>,
}

impl<T> View for TrackKeyframe<T> {
    type V = TrackKeyframeView<T>;

    open spec fn view(&self) -> TrackKeyframeView<T> {
        TrackKeyframeView { offset: self.offset@, value: self.value, easing: easing_view(self.easing) }
    }
}

pub open spec fn track_views<T>(k: Seq<TrackKeyframe<T>>) -> Seq<TrackKeyframeView<T>> {
    k.map_values(|x: TrackKeyframe<T>| x@)
}

/// The easing of an entry: its keyframe's `animation-timing-function`, when
/// that parses.
pub open spec fn entry_easing_spec(e: EntryView) -> Option<CssEasingView> {
    match e.timing_function {
        Some(t) => easing_spec(t),
        None => None,
    }
}

pub fn entry_easing(entry: &PropertyEntry) -> (r: Option<CssEasing>)
    ensures
        easing_view(r) == entry_easing_spec(entry@),
{
    match &entry.timing_function {
        Some(t) => parse_easing(t.as_str()),
        None => None,
    }
}

/// The color keyframes of the entries whose value (trimmed) is a color.
pub open spec fn color_track_spec(entries: Seq<EntryView>) -> Seq<TrackKeyframeView<Color>>
    decreases entries.len(),
{
    if entries.len() == 0 {
        Seq::empty()
    } else {
        let prev = color_track_spec(entries.drop_last());
        let e = entries.last();
        match svg_color(trim(e.value)) {
            Some(c) => prev.push(
                TrackKeyframeView { offset: e.offset, value: c, easing: entry_easing_spec(e) },
            ),
            None => prev,
        }
    }
}

/// Builds the keyframes of a color property (`fill`, `stroke`, `stop-color`),
/// dropping the values that are not colors.
pub fn color_track(entries: &[PropertyEntry]) -> (r: Vec<TrackKeyframe<Color>>)
    ensures
        track_views(r@) == color_track_spec(entry_views(entries@)),
{
    let ghost ev = entry_views(entries@);
    let mut out: Vec<TrackKeyframe<Color>> = Vec::new();
    let mut i: usize = 0;
    while i < entries.len()
        invariant
            0 <= i <= entries@.len(),
            ev == entry_views(entries@),
            ev.len() == entries@.len(),
            track_views(out@) == color_track_spec(ev.take(i as int)),
        decreases entries.len() - i,
    {
        let e = &entries[i];
        assert(ev[i as int] == e@);
        assert(ev.take(i + 1).drop_last() =~= ev.take(i as int));
        let v = chars_of(e.value.as_str());
        let (a, b) = trim_bounds(v.as_slice(), 0, v.len());
        assert(v@.subrange(0, v@.len() as int) =~= v@);
        let t = string_of(v.as_slice(), a, b);
        if let Some(c) = parse_css_color(t.as_str()) {
            let k = TrackKeyframe { offset: copy_offset(&e.offset), value: c, easing: entry_easing(e) };
            let ghost before = out@;
            out.push(k);
            assert(track_views(out@) =~= track_views(before).push(k@));
        }
        i = i + 1;
    }
    assert(ev.take(ev.len() as int) =~= ev);
    out
}


/// Law: an `animation-name` entry is skipped exactly when it is blank or
/// `none` (any ASCII case); otherwise it finds the first rule whose name is
/// the trimmed entry, and is reported as unknown exactly when no rule has
/// that name.
pub proof fn lemma_name_match_finds_rule(name: Seq<char>, rules: Seq<RuleView>)
    ensures
        ({
            let t = trim(name);
            &&& (name_match_spec(name, rules) == NameMatchView::Skip) <==> (t.len() == 0 || eq_ci(
                t,
                "none"@,
            ))
            &&& name_match_spec(name, rules) matches NameMatchView::Found(i) ==> 0 <= i
                < rules.len() && rules[i].name == t && forall|k: int|
                0 <= k < i ==> #[trigger] rules[k].name != t
            &&& name_match_spec(name, rules) matches NameMatchView::Unknown(u) ==> u == t
                && forall|k: int| 0 <= k < rules.len() ==> #[trigger] rules[k].name != t
        }),
{
    lemma_index_of_name(rules, trim(name));
}

} // verus!
