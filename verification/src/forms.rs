//! The SMIL value forms — `values`, `from`, `to` and `by` — turned into keyframe tracks.
//!
//! The value type of a track is a parameter: this module decides which forms
//! are used, where each keyframe sits and which values it combines, and the
//! caller supplies the parsed values.

use vstd::prelude::*;
use crate::declarations::{opt_view, plain_scan};
use crate::text::texts_of;
use crate::kinds::{Accumulate, Additive, CalcMode};
use crate::text::{chars_of, string_of, trim, trim_bounds};

verus! {

broadcast use vstd::string::group_string_axioms;

/// Where a keyframe sits on the unit interval of one animation iteration.
#[derive(Clone, Copy, Debug)]
pub enum KeyOffset<K> {
    /// The matching entry of the animation's `keyTimes`.
    KeyTime(K),
    /// The fraction `numerator / denominator`; the denominator is positive.
    Fraction(usize, usize),
}

/// The value of one keyframe.
#[derive(Clone, Debug)]
pub enum FormValue<T> {
    /// A value as written.
    Parsed(T),
    /// The value of the track's first keyframe plus this delta
    /// (`from` + `by`, or the base value + `by`).
    AddedToStart(T),
    /// The additive identity of the value type.
    Zero,
}

/// One keyframe of a SMIL value track.
#[derive(Clone, Debug)]
pub struct Keyframe<K, T> {
    pub offset: KeyOffset<K>,
    pub value: FormValue<T>,
}

/// How the `by` forms treat a value type.
#[derive(Clone, Copy, Debug)]
pub struct FormRules {
    /// A bare `by` is added to the base value instead of becoming a `Sum` delta.
    pub is_geometry: bool,
    /// Whether the `by` forms are allowed at all.
    pub supports_delta: bool,
    /// Whether the type has an additive identity for a bare `by` delta.
    pub has_zero: bool,
}

/// Why no track was built.
#[derive(Clone, Copy, Debug, PartialEq, Eq, Structural)]
pub enum FormsError {
    /// The forms do not describe a track (missing, invalid or conflicting values).
    NoTrack,
    /// A `by` form was given for a type that cannot be added.
    DeltaUnsupported,
}

/// The raw forms, trimmed, with the `values` list split into its entries.
///
/// When `values` is present the other three forms are not consulted and are
/// left out.
pub struct FormTexts {
    pub values: Option<Vec<String>>,
    pub from: Option<String>,
    pub to: Option<String>,
    pub by: Option<String>,
}

/// The forms after parsing each text: the outer `Option` says whether the form
/// is present, the inner one whether its text parsed.
pub struct ParsedForms<T> {
    pub values: Option<Vec<Option<T>>>,
    pub from: Option<Option<T>>,
    pub to: Option<Option<T>>,
    pub by: Option<Option<T>>,
}

pub struct ParsedView<T> {
    pub values: Option<Seq<Option<T>>>,
    pub from: Option<Option<T>>,
    pub to: Option<Option<T>>,
    pub by: Option<Option<T>>,
}

impl<T> View for ParsedForms<T> {
    type V = ParsedView<T>;

    open spec fn view(&self) -> ParsedView<T> {
        ParsedView {
            values: match self.values {
                Some(v) => Some(v@),
                None => None,
            },
            from: self.from,
            to: self.to,
            by: self.by,
        }
    }
}

pub struct TextsView {
    pub values: Option<Seq<Seq<char>>>,
    pub from: Option<Seq<char>>,
    pub to: Option<Seq<char>>,
    pub by: Option<Seq<char>>,
}

impl View for FormTexts {
    type V = TextsView;

    open spec fn view(&self) -> TextsView {
        TextsView {
            values: match self.values {
                Some(v) => Some(texts_of(v@)),
                None => None,
            },
            from: opt_view(self.from),
            to: opt_view(self.to),
            by: opt_view(self.by),
        }
    }
}

/// The texts of the forms as `form_texts` reads them.
pub open spec fn texts_spec(
    values: Option<Seq<char>>,
    from: Option<Seq<char>>,
    to: Option<Seq<char>>,
    by: Option<Seq<char>>,
) -> TextsView {
    match values {
        Some(v) => TextsView { values: Some(value_items_spec(v)), from: None, to: None, by: None },
        None => TextsView {
            values: None,
            from: match from {
                Some(t) => Some(trim(t)),
                None => None,
            },
            to: match to {
                Some(t) => Some(trim(t)),
                None => None,
            },
            by: match by {
                Some(t) => Some(trim(t)),
                None => None,
            },
        },
    }
}

pub open spec fn str_opt(s: Option<&str>) -> Option<Seq<char>> {
    match s {
        Some(t) => Some(t@),
        None => None,
    }
}


/// The trimmed, non-blank pieces of `s` between the given ranges.
pub open spec fn nonblank_pieces(s: Seq<char>, ranges: Seq<(int, int)>) -> Seq<Seq<char>>
    decreases ranges.len(),
{
    if ranges.len() == 0 {
        Seq::empty()
    } else {
        let prev = nonblank_pieces(s, ranges.drop_last());
        let t = trim(s.subrange(ranges.last().0, ranges.last().1));
        if t.len() == 0 {
            prev
        } else {
            prev.push(t)
        }
    }
}

/// The entries of a `values` list: split at `;`, trimmed, blanks dropped.
pub open spec fn value_items_spec(s: Seq<char>) -> Seq<Seq<char>> {
    nonblank_pieces(s, plain_scan(s, ';', 0, 0))
}

/// The trimmed, non-blank pieces of `v` between the separators `d`.
pub fn nonblank_items(v: &[char], d: char) -> (r: Vec<String>)
    ensures
        texts_of(r@) == nonblank_pieces(v@, plain_scan(v@, d, 0, 0)),
{
    let parts = crate::declarations::split_plain(v, d);
    let ghost all = plain_scan(v@, d, 0, 0);
    let mut out: Vec<String> = Vec::new();
    let mut k: usize = 0;
    while k < parts.len()
        invariant
            all == plain_scan(v@, d, 0, 0),
            parts@.len() == all.len(),
            forall|j: int|
                0 <= j < parts@.len() ==> parts@[j].0 as int == all[j].0 && parts@[j].1 as int
                    == all[j].1,
            forall|j: int|
                #![trigger all[j]]
                0 <= j < all.len() ==> 0 <= all[j].0 && all[j].0 <= all[j].1 && all[j].1
                    <= v@.len(),
            0 <= k <= parts@.len(),
            texts_of(out@) == nonblank_pieces(v@, all.take(k as int)),
        decreases parts.len() - k,
    {
        let (lo, hi) = parts[k];
        assert(all[k as int].0 <= all[k as int].1);
        let (a, b) = trim_bounds(v, lo, hi);
        assert(all.take(k + 1).drop_last() =~= all.take(k as int));
        assert(all.take(k + 1).last() == all[k as int]);
        if a < b {
            let ghost before = out@;
            out.push(string_of(v, a, b));
            assert(texts_of(out@) =~= texts_of(before).push(v@.subrange(a as int, b as int)));
        }
        k = k + 1;
    }
    assert(all.take(all.len() as int) =~= all);
    out
}

/// Splits a `values` attribute into its entries.
pub fn value_items(values: &str) -> (r: Vec<String>)
    ensures
        texts_of(r@) == value_items_spec(values@),
{
    let v = chars_of(values);
    nonblank_items(v.as_slice(), ';')
}

/// The trimmed text of a form, if present.
fn trimmed(s: Option<&str>) -> (r: Option<String>)
    ensures
        opt_view(r) == match s {
            Some(t) => Some(trim(t@)),
            None => None,
        },
{
    match s {
        None => None,
        Some(t) => {
            let v = chars_of(t);
            let (a, b) = trim_bounds(v.as_slice(), 0, v.len());
            assert(v@.subrange(0, v@.len() as int) =~= v@);
            Some(string_of(v.as_slice(), a, b))
        },
    }
}

/// Collects the texts of the four forms.
pub fn form_texts(values: Option<&str>, from: Option<&str>, to: Option<&str>, by: Option<&str>) -> (r:
    FormTexts)
    ensures
        r@ == texts_spec(str_opt(values), str_opt(from), str_opt(to), str_opt(by)),
{
    match values {
        Some(v) => FormTexts { values: Some(value_items(v)), from: None, to: None, by: None },
        None => FormTexts { values: None, from: trimmed(from), to: trimmed(to), by: trimmed(by) },
    }
}


pub open spec fn slice_opt<K>(key_times: Option<&[K]>) -> Option<Seq<K>> {
    match key_times {
        Some(t) => Some(t@),
        None => None,
    }
}

/// The offsets of `count` evenly spread keyframes, or the `keyTimes` when
/// there is one per keyframe.
pub open spec fn uniform_offsets_spec<K>(count: nat, key_times: Option<Seq<K>>) -> Seq<KeyOffset<K>> {
    if key_times is Some && key_times->0.len() == count {
        key_times->0.map_values(|k: K| KeyOffset::KeyTime(k))
    } else if count <= 1 {
        seq![KeyOffset::Fraction(0, 1)]
    } else {
        Seq::new(count, |i: int| KeyOffset::Fraction(i as usize, (count - 1) as usize))
    }
}

/// Computes keyframe offsets, honoring `keyTimes` when it matches the count.
pub fn uniform_offsets<K: Copy>(count: usize, key_times: Option<&[K]>) -> (r: Vec<KeyOffset<K>>)
    ensures
        r@ == uniform_offsets_spec(count as nat, slice_opt(key_times)),
{
    if let Some(times) = key_times {
        if times.len() == count {
            let mut out: Vec<KeyOffset<K>> = Vec::new();
            let mut i: usize = 0;
            while i < times.len()
                invariant
                    0 <= i <= times@.len(),
                    out@ == times@.take(i as int).map_values(|k: K| KeyOffset::KeyTime(k)),
                decreases times.len() - i,
            {
                out.push(KeyOffset::KeyTime(times[i]));
                assert(times@.take(i + 1).map_values(|k: K| KeyOffset::KeyTime(k)) =~= times@.take(
                    i as int,
                ).map_values(|k: K| KeyOffset::KeyTime(k)).push(KeyOffset::KeyTime(times@[i as int])));
                i = i + 1;
            }
            assert(times@.take(times@.len() as int) =~= times@);
            return out;
        }
    }
    if count <= 1 {
        return vec![KeyOffset::Fraction(0, 1)];
    }
    let mut out: Vec<KeyOffset<K>> = Vec::new();
    let mut i: usize = 0;
    while i < count
        invariant
            count > 1,
            0 <= i <= count,
            out@ == Seq::new(i as nat, |j: int| KeyOffset::<K>::Fraction(j as usize, (count - 1) as usize)),
        decreases count - i,
    {
        out.push(KeyOffset::Fraction(i, count - 1));
        assert(out@ =~= Seq::new((i + 1) as nat, |j: int| KeyOffset::<K>::Fraction(j as usize, (count - 1) as usize)));
        i = i + 1;
    }
    out
}

/// The keyframes of the entries that parsed, each at its entry's offset.
pub open spec fn keep_parsed<K, T>(offsets: Seq<KeyOffset<K>>, items: Seq<Option<T>>) -> Seq<
    Keyframe<K, T>,
>
    decreases items.len(),
{
    if items.len() == 0 {
        Seq::empty()
    } else {
        let prev = keep_parsed(offsets, items.drop_last());
        match items.last() {
            Some(v) => prev.push(
                Keyframe { offset: offsets[items.len() - 1], value: FormValue::Parsed(v) },
            ),
            None => prev,
        }
    }
}

/// The track of a `values` list whose entries parsed to `items`.
pub open spec fn values_track<K, T>(
    items: Seq<Option<T>>,
    key_times: Option<Seq<K>>,
    additive: Additive,
) -> Option<(Seq<Keyframe<K, T>>, Additive)> {
    if items.len() == 0 {
        None
    } else {
        let kfs = keep_parsed(uniform_offsets_spec(items.len(), key_times), items);
        if kfs.len() == 0 {
            None
        } else {
            Some((kfs, additive))
        }
    }
}

/// Builds a keyframe track from a `values` list, dropping invalid entries.
pub fn build_values_list<K: Copy, T>(
    items: Vec<Option<T>>,
    key_times: Option<&[K]>,
    additive: Additive,
) -> (r: Option<(Vec<Keyframe<K, T>>, Additive)>)
    ensures
        match r {
            Some((kfs, a)) => values_track(items@, slice_opt(key_times), additive) == Some(
                (kfs@, a),
            ),
            None => values_track(items@, slice_opt(key_times), additive) is None,
        },
{
    let ghost all = items@;
    let count = items.len();
    if count == 0 {
        return None;
    }
    let offsets = uniform_offsets(count, key_times);
    assert(offsets@.len() == count) by {
        if !(key_times is Some && key_times->0@.len() == count) && count > 1 {
        }
    }
    let mut keyframes: Vec<Keyframe<K, T>> = Vec::new();
    let mut rest = items;
    let mut i: usize = 0;
    while i < count
        invariant
            0 <= i <= count,
            count == all.len(),
            offsets@.len() == count,
            rest@ == all.skip(i as int),
            keyframes@ == keep_parsed(offsets@, all.take(i as int)),
        decreases count - i,
    {
        let item = rest.remove(0);
        assert(all.take(i + 1).drop_last() =~= all.take(i as int));
        assert(all.take(i + 1).last() == all[i as int]);
        assert(all.skip(i as int)[0] == all[i as int]);
        assert(rest@ =~= all.skip(i + 1));
        if let Some(value) = item {
            keyframes.push(Keyframe { offset: offsets[i], value: FormValue::Parsed(value) });
        }
        i = i + 1;
    }
    assert(all.take(count as int) =~= all);
    if keyframes.len() == 0 {
        None
    } else {
        Some((keyframes, additive))
    }
}


/// A two-keyframe track from offset 0 to offset 1.
pub open spec fn two<K, T>(start: FormValue<T>, end: FormValue<T>) -> Seq<Keyframe<K, T>> {
    seq![
        Keyframe { offset: KeyOffset::Fraction(0, 1), value: start },
        Keyframe { offset: KeyOffset::Fraction(1, 1), value: end },
    ]
}

/// The track of the `from`/`to`/`by` forms, given the values that parsed.
pub open spec fn endpoint_track<K, T>(
    from: Option<T>,
    to: Option<T>,
    by: Option<T>,
    additive: Additive,
    rules: FormRules,
    base: Option<T>,
) -> Result<(Seq<Keyframe<K, T>>, Additive), FormsError> {
    match (from, to, by) {
        (Some(f), Some(t), None) => Ok((two(FormValue::Parsed(f), FormValue::Parsed(t)), additive)),
        (Some(f), None, Some(b)) => if !rules.supports_delta {
            Err(FormsError::DeltaUnsupported)
        } else {
            Ok((two(FormValue::Parsed(f), FormValue::AddedToStart(b)), Additive::Replace))
        },
        (None, Some(t), None) => match base {
            Some(v) => Ok((two(FormValue::Parsed(v), FormValue::Parsed(t)), Additive::Replace)),
            None => Err(FormsError::NoTrack),
        },
        (None, None, Some(b)) => if !rules.supports_delta {
            Err(FormsError::DeltaUnsupported)
        } else if rules.is_geometry {
            match base {
                Some(v) => Ok(
                    (two(FormValue::Parsed(v), FormValue::AddedToStart(b)), Additive::Replace),
                ),
                None => Err(FormsError::NoTrack),
            }
        } else if rules.has_zero {
            Ok((two(FormValue::Zero, FormValue::Parsed(b)), Additive::Sum))
        } else {
            Err(FormsError::NoTrack)
        },
        (Some(f), None, None) => Ok(
            (seq![Keyframe { offset: KeyOffset::Fraction(0, 1), value: FormValue::Parsed(f) }], additive),
        ),
        _ => Err(FormsError::NoTrack),
    }
}

pub open spec fn flatten<T>(o: Option<Option<T>>) -> Option<T> {
    match o {
        Some(Some(v)) => Some(v),
        _ => None,
    }
}

pub open spec fn is_invalid<T>(o: Option<Option<T>>) -> bool {
    o matches Some(None)
}

/// The track that the parsed forms describe, with the resolved additive
/// behavior: `values` wins over the other forms, and a form that is present
/// but did not parse leaves no track.
pub open spec fn forms_track<K, T>(
    forms: ParsedView<T>,
    key_times: Option<Seq<K>>,
    additive: Additive,
    rules: FormRules,
    base: Option<T>,
) -> Result<(Seq<Keyframe<K, T>>, Additive), FormsError> {
    match forms.values {
        Some(items) => match values_track(items, key_times, additive) {
            Some(t) => Ok(t),
            None => Err(FormsError::NoTrack),
        },
        None => if is_invalid(forms.from) || is_invalid(forms.to) || is_invalid(forms.by) {
            Err(FormsError::NoTrack)
        } else {
            endpoint_track(flatten(forms.from), flatten(forms.to), flatten(forms.by), additive, rules, base)
        },
    }
}

pub open spec fn result_view<K, T>(r: Result<(Vec<Keyframe<K, T>>, Additive), FormsError>) -> Result<
    (Seq<Keyframe<K, T>>, Additive),
    FormsError,
> {
    match r {
        Ok((kfs, a)) => Ok((kfs@, a)),
        Err(e) => Err(e),
    }
}

fn two_keyframes<K, T>(start: FormValue<T>, end: FormValue<T>) -> (r: Vec<Keyframe<K, T>>)
    ensures
        r@ == two::<K, T>(start, end),
{
    let r = vec![
        Keyframe { offset: KeyOffset::Fraction(0, 1), value: start },
        Keyframe { offset: KeyOffset::Fraction(1, 1), value: end },
    ];
    assert(r@ =~= two::<K, T>(start, end));
    r
}

/// Builds a keyframe track from the parsed SMIL value forms and returns the
/// resolved additive behavior.
pub fn build_forms<K: Copy, T>(
    forms: ParsedForms<T>,
    key_times: Option<&[K]>,
    additive: Additive,
    rules: FormRules,
    base: Option<T>,
) -> (r: Result<(Vec<Keyframe<K, T>>, Additive), FormsError>)
    ensures
        result_view(r) == forms_track(forms@, slice_opt(key_times), additive, rules, base),
{
    let ghost g = forms@;
    let ParsedForms { values, from, to, by } = forms;
    if let Some(items) = values {
        return match build_values_list(items, key_times, additive) {
            Some(t) => Ok(t),
            None => Err(FormsError::NoTrack),
        };
    }
    let from = match from {
        Some(Some(v)) => Some(v),
        Some(None) => return Err(FormsError::NoTrack),
        None => None,
    };
    let to = match to {
        Some(Some(v)) => Some(v),
        Some(None) => return Err(FormsError::NoTrack),
        None => None,
    };
    let by = match by {
        Some(Some(v)) => Some(v),
        Some(None) => return Err(FormsError::NoTrack),
        None => None,
    };
    assert(from == flatten(g.from) && to == flatten(g.to) && by == flatten(g.by));
    match (from, to, by) {
        (Some(f), Some(t), None) => Ok(
            (two_keyframes(FormValue::Parsed(f), FormValue::Parsed(t)), additive),
        ),
        (Some(f), None, Some(b)) => {
            if !rules.supports_delta {
                return Err(FormsError::DeltaUnsupported);
            }
            Ok((two_keyframes(FormValue::Parsed(f), FormValue::AddedToStart(b)), Additive::Replace))
        },
        (None, Some(t), None) => match base {
            Some(v) => Ok(
                (two_keyframes(FormValue::Parsed(v), FormValue::Parsed(t)), Additive::Replace),
            ),
            None => Err(FormsError::NoTrack),
        },
        (None, None, Some(b)) => {
            if !rules.supports_delta {
                return Err(FormsError::DeltaUnsupported);
            }
            if rules.is_geometry {
                match base {
                    Some(v) => Ok(
                        (
                            two_keyframes(FormValue::Parsed(v), FormValue::AddedToStart(b)),
                            Additive::Replace,
                        ),
                    ),
                    None => Err(FormsError::NoTrack),
                }
            } else if rules.has_zero {
                Ok((two_keyframes(FormValue::Zero, FormValue::Parsed(b)), Additive::Sum))
            } else {
                Err(FormsError::NoTrack)
            }
        },
        (Some(f), None, None) => {
            let r = vec![Keyframe { offset: KeyOffset::Fraction(0, 1), value: FormValue::Parsed(f) }];
            assert(r@ =~= seq![Keyframe { offset: KeyOffset::<K>::Fraction(0, 1), value: FormValue::Parsed(f) }]);
            Ok((r, additive))
        },
        _ => Err(FormsError::NoTrack),
    }
}


/// A discrete `from`/`to` track switches at the middle of its interval.
pub open spec fn midpoint_spec<K, T>(keyframes: Seq<Keyframe<K, T>>, texts_plain_from_to: bool) -> Seq<
    Keyframe<K, T>,
> {
    if texts_plain_from_to && keyframes.len() == 2 {
        keyframes.update(
            1,
            Keyframe { offset: KeyOffset::Fraction(1, 2), value: keyframes[1].value },
        )
    } else {
        keyframes
    }
}

/// Whether the forms are a plain `from`/`to` pair (no `values` list).
pub open spec fn is_from_to(texts: TextsView) -> bool {
    texts.values is None && texts.from is Some && texts.to is Some
}

/// Moves a discrete `from`/`to` transition to the middle of its active interval.
pub fn discrete_from_to_midpoint<K, T>(keyframes: Vec<Keyframe<K, T>>, forms: &FormTexts) -> (r: Vec<
    Keyframe<K, T>,
>)
    ensures
        r@ == midpoint_spec(keyframes@, is_from_to(forms@)),
{
    let mut keyframes = keyframes;
    if forms.values.is_none() && forms.from.is_some() && forms.to.is_some() && keyframes.len()
        == 2 {
        let ghost old_k = keyframes@;
        let second = keyframes.pop().unwrap();
        keyframes.push(Keyframe { offset: KeyOffset::Fraction(1, 2), value: second.value });
        assert(keyframes@ =~= old_k.update(
            1,
            Keyframe { offset: KeyOffset::Fraction(1, 2), value: old_k[1].value },
        ));
    }
    keyframes
}

/// Drops `Sum` accumulation for types that cannot accumulate; the flag says
/// whether a `Sum` was dropped (which is reported).
pub fn resolve_accumulate(accumulate: Accumulate, accumulatable: bool) -> (r: (Accumulate, bool))
    ensures
        r.1 == (!accumulatable && accumulate == Accumulate::Sum),
        r.0 == (if r.1 {
            Accumulate::NoAccumulate
        } else {
            accumulate
        }),
{
    if !accumulatable && accumulate == Accumulate::Sum {
        (Accumulate::NoAccumulate, true)
    } else {
        (accumulate, false)
    }
}

/// The number of entries of a list-valued keyframe: a value added to the
/// start pads the shorter list with zeros.
pub open spec fn list_len<K, E>(k: Keyframe<K, Vec<E>>, start_len: nat) -> nat {
    match k.value {
        FormValue::Parsed(v) => v@.len(),
        FormValue::AddedToStart(d) => if d@.len() > start_len {
            d@.len()
        } else {
            start_len
        },
        FormValue::Zero => 0,
    }
}

/// Whether every keyframe of a list-valued track has as many entries as the first.
pub open spec fn same_lengths<K, E>(keyframes: Seq<Keyframe<K, Vec<E>>>) -> bool {
    keyframes.len() == 0 || forall|i: int|
        0 <= i < keyframes.len() ==> list_len(#[trigger] keyframes[i], list_len(keyframes[0], 0))
            == list_len(keyframes[0], 0)
}

/// Forces discrete stepping when the list keyframes differ in length; the
/// flag says whether the values were found not interpolable (which is reported).
pub fn dasharray_calc_mode<K, E>(keyframes: &[Keyframe<K, Vec<E>>], calc_mode: CalcMode) -> (r: (
    CalcMode,
    bool,
))
    ensures
        r.1 == !same_lengths(keyframes@),
        r.0 == (if r.1 {
            CalcMode::Discrete
        } else {
            calc_mode
        }),
{
    if keyframes.len() == 0 {
        return (calc_mode, false);
    }
    let first = match &keyframes[0].value {
        FormValue::Parsed(v) => v.len(),
        FormValue::AddedToStart(d) => d.len(),
        FormValue::Zero => 0,
    };
    assert(first == list_len(keyframes@[0], 0));
    let mut i: usize = 0;
    while i < keyframes.len()
        invariant
            0 <= i <= keyframes@.len(),
            first == list_len(keyframes@[0], 0),
            forall|j: int| 0 <= j < i ==> list_len(#[trigger] keyframes@[j], first as nat) == first,
        decreases keyframes.len() - i,
    {
        let len = match &keyframes[i].value {
            FormValue::Parsed(v) => v.len(),
            FormValue::AddedToStart(d) => if d.len() > first {
                d.len()
            } else {
                first
            },
            FormValue::Zero => 0,
        };
        if len != first {
            assert(list_len(keyframes@[i as int], first as nat) != first);
            return (CalcMode::Discrete, true);
        }
        i = i + 1;
    }
    (calc_mode, false)
}

/// Law: without matching `keyTimes`, the keyframes of `count > 1` values sit
/// at `0/(count-1)`, `1/(count-1)`, ..., `(count-1)/(count-1)`: evenly spread,
/// in order, from the start to the end of the interval.
pub proof fn lemma_uniform_offsets_spread<K>(count: nat, key_times: Option<Seq<K>>)
    requires
        count > 1,
        !(key_times is Some && key_times->0.len() == count),
    ensures
        uniform_offsets_spec(count, key_times).len() == count,
        forall|i: int|
            0 <= i < count ==> #[trigger] uniform_offsets_spec(count, key_times)[i]
                == KeyOffset::<K>::Fraction(i as usize, (count - 1) as usize),
        uniform_offsets_spec(count, key_times)[0] == KeyOffset::<K>::Fraction(0, (count - 1) as usize),
        uniform_offsets_spec(count, key_times)[count - 1] == KeyOffset::<K>::Fraction(
            (count - 1) as usize,
            (count - 1) as usize,
        ),
{
}

/// Law: a `values` list keeps only entries that parsed: every keyframe is
/// the parsed value of some entry, at that entry's offset, and there are no
/// more keyframes than entries.
pub proof fn lemma_keep_parsed_entries<K, T>(offsets: Seq<KeyOffset<K>>, items: Seq<Option<T>>)
    ensures
        keep_parsed(offsets, items).len() <= items.len(),
        forall|k: int|
            0 <= k < keep_parsed(offsets, items).len() ==> exists|j: int|
                0 <= j < items.len() && items[j] is Some && #[trigger] keep_parsed(
                    offsets,
                    items,
                )[k] == (Keyframe { offset: offsets[j], value: FormValue::Parsed(items[j]->0) }),
    decreases items.len(),
{
    if items.len() > 0 {
        let p = items.drop_last();
        lemma_keep_parsed_entries(offsets, p);
        let r = keep_parsed(offsets, items);
        let q = keep_parsed(offsets, p);
        assert forall|k: int| 0 <= k < r.len() implies exists|j: int|
            0 <= j < items.len() && items[j] is Some && #[trigger] r[k] == (Keyframe {
                offset: offsets[j],
                value: FormValue::Parsed(items[j]->0),
            }) by {
            if k < q.len() {
                assert(r[k] == q[k]);
                let j = choose|j: int|
                    0 <= j < p.len() && p[j] is Some && #[trigger] q[k] == (Keyframe {
                        offset: offsets[j],
                        value: FormValue::Parsed(p[j]->0),
                    });
                assert(items[j] == p[j]);
            } else {
                assert(items[items.len() - 1] == items.last());
            }
        }
    }
}

/// What reading one `from`/`to`/`by` text with `parse` gave: nothing for an
/// absent text, a failure without a call once an earlier form failed, and
/// otherwise what the call returned.
pub open spec fn endpoint_read<T, F: Fn(&String) -> Option<T>>(
    parse: F,
    text: Option<String>,
    got: Option<Option<T>>,
    skip: bool,
) -> bool {
    match text {
        None => got is None,
        Some(t) => if skip {
            got == Some(None::<T>)
        } else {
            got matches Some(v) && parse.ensures((&t,), v)
        },
    }
}

/// Reads the forms with `parse`: every `values` entry, or else `from`, `to`
/// and `by` in that order, each one after a failure read as failed without a
/// call.
pub fn read_forms<T, F: Fn(&String) -> Option<T>>(texts: &FormTexts, parse: &F) -> (r: ParsedForms<T>)
    requires
        forall|s: &String| #[trigger] parse.requires((s,)),
    ensures
        match texts.values {
            Some(items) => {
                &&& r.values matches Some(vs)
                &&& vs@.len() == items@.len()
                &&& forall|i: int| 0 <= i < items@.len() ==> parse.ensures((&items@[i],), #[trigger] vs@[i])
                &&& r.from is None && r.to is None && r.by is None
            },
            None => {
                &&& r.values is None
                &&& endpoint_read(*parse, texts.from, r.from, false)
                &&& endpoint_read(*parse, texts.to, r.to, r.from == Some(None::<T>))
                &&& endpoint_read(
                    *parse,
                    texts.by,
                    r.by,
                    r.from == Some(None::<T>) || r.to == Some(None::<T>),
                )
            },
        },
{
    match &texts.values {
        Some(items) => {
            let mut out: Vec<Option<T>> = Vec::new();
            let mut i: usize = 0;
            while i < items.len()
                invariant
                    0 <= i <= items@.len(),
                    out@.len() == i,
                    forall|s: &String| #[trigger] parse.requires((s,)),
                    forall|j: int| 0 <= j < i ==> parse.ensures((&items@[j],), #[trigger] out@[j]),
                decreases items.len() - i,
            {
                let v = parse(&items[i]);
                out.push(v);
                i = i + 1;
            }
            ParsedForms { values: Some(out), from: None, to: None, by: None }
        },
        None => {
            let from: Option<Option<T>> = match &texts.from {
                None => None,
                Some(t) => Some(parse(t)),
            };
            let stop_from = match &from {
                Some(None) => true,
                _ => false,
            };
            let to: Option<Option<T>> = match &texts.to {
                None => None,
                Some(t) => if stop_from {
                    Some(None)
                } else {
                    Some(parse(t))
                },
            };
            let stop_to = match &to {
                Some(None) => true,
                _ => false,
            };
            let by: Option<Option<T>> = match &texts.by {
                None => None,
                Some(t) => if stop_from || stop_to {
                    Some(None)
                } else {
                    Some(parse(t))
                },
            };
            ParsedForms { values: None, from, to, by }
        },
    }
}

} // verus!
