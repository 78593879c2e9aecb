use vstd::prelude::*;

use crate::executor::{Ctx, EvaluationContext};
use crate::filter::{removes_feature, removes_tag, CompiledFilterFeature};
use crate::mvt::{
    key_at, key_used, pair_total, pairs, refs_key, refs_value, same_repr, tag_value_model,
    tag_values_equal, tags_in_range, val_at, value_used, MvtFeature, MvtLayer, TagValue,
};
use crate::text::str_eq;

verus! {

broadcast use vstd::std_specs::vec::group_vec_axioms;

/// What the geometry of a feature contributes to filtering it: its kind
/// (`Point`, `LineString` or `Polygon`) and the filter regions it
/// intersects, by index, in the order they are consulted.
#[derive(Debug, Clone)]
pub struct FeatureHits {
    pub geometry_kind: String,
    pub regions: Vec<usize>,
}

/// Why a layer could not be rewritten.
#[derive(Debug, Clone, Copy, PartialEq, Eq, Structural)]
pub enum TransformError {
    /// A feature's tag refers past the end of a dictionary.
    TagOutOfRange,
}

/// The position of the property named `k`, if any.
pub open spec fn position_of(ps: Seq<(Seq<char>, int)>, k: Seq<char>) -> Option<int>
    decreases ps.len(),
{
    if ps.len() == 0 {
        None
    } else {
        match position_of(ps.drop_last(), k) {
            Some(i) => Some(i),
            None => if ps.last().0 == k {
                Some(ps.len() - 1)
            } else {
                None
            },
        }
    }
}

/// Sets the property `k` to the value index `v`: in place when it is
/// there, else at the end.
pub open spec fn upsert(ps: Seq<(Seq<char>, int)>, k: Seq<char>, v: int) -> Seq<(Seq<char>, int)> {
    match position_of(ps, k) {
        Some(i) => ps.update(i, (k, v)),
        None => ps.push((k, v)),
    }
}

/// The properties that the first `n` tag pairs of `t` give, by key text and
/// value index; a later pair with the same key replaces the value.
pub open spec fn properties_of(keys: Seq<String>, t: Seq<u32>, n: int) -> Seq<(Seq<char>, int)>
    decreases n,
{
    if n <= 0 {
        Seq::empty()
    } else {
        upsert(properties_of(keys, t, n - 1), keys[key_at(t, n - 1) as int]@, val_at(t, n - 1) as int)
    }
}

/// The properties of a feature of `l`.
pub open spec fn feature_props(l: MvtLayer, f: MvtFeature) -> Seq<(Seq<char>, int)> {
    properties_of(l.keys@, f.tags@, pairs(f.tags@))
}

/// The context in which the predicates see the `i`-th feature of `l`.
pub open spec fn feature_ctx(l: MvtLayer, hits: Seq<FeatureHits>, i: int) -> Ctx {
    let ps = feature_props(l, l.features[i]);
    Ctx {
        layer: l.name@,
        props: Seq::new(ps.len(), |q: int| (ps[q].0, tag_value_model(l.values[ps[q].1]))),
        key: None,
        geom: Some(hits[i].geometry_kind@),
    }
}

/// Whether one of the regions `hit` (indexes into `regions`) removes the
/// feature that `c` describes.
pub open spec fn some_region_removes_feature(regions: Seq<CompiledFilterFeature>, hit: Seq<usize>, c: Ctx) -> bool {
    exists|j: int| 0 <= j < hit.len() && removes_feature(regions[#[trigger] hit[j] as int], c)
}

/// Whether one of the regions `hit` removes the tag under test in `c`.
pub open spec fn some_region_removes_tag(regions: Seq<CompiledFilterFeature>, hit: Seq<usize>, c: Ctx) -> bool {
    exists|j: int| 0 <= j < hit.len() && removes_tag(regions[#[trigger] hit[j] as int], c)
}

/// Whether some region that the `i`-th feature intersects removes it.
pub open spec fn feature_removed(l: MvtLayer, hits: Seq<FeatureHits>, regions: Seq<CompiledFilterFeature>, i: int) -> bool {
    some_region_removes_feature(regions, hits[i].regions@, feature_ctx(l, hits, i))
}

/// Whether some region that the `i`-th feature intersects removes its tag `k`.
pub open spec fn tag_removed(
    l: MvtLayer,
    hits: Seq<FeatureHits>,
    regions: Seq<CompiledFilterFeature>,
    i: int,
    k: Seq<char>,
) -> bool {
    some_region_removes_tag(regions, hits[i].regions@, Ctx { key: Some(k), ..feature_ctx(l, hits, i) })
}

/// The properties of `ps` that the `i`-th feature keeps, in order.
pub open spec fn kept_tags(
    l: MvtLayer,
    hits: Seq<FeatureHits>,
    regions: Seq<CompiledFilterFeature>,
    i: int,
    ps: Seq<(Seq<char>, int)>,
) -> Seq<(Seq<char>, int)>
    decreases ps.len(),
{
    if ps.len() == 0 {
        Seq::empty()
    } else {
        let rest = kept_tags(l, hits, regions, i, ps.drop_last());
        if tag_removed(l, hits, regions, i, ps.last().0) {
            rest
        } else {
            rest.push(ps.last())
        }
    }
}

/// The indexes of the first `n` features of `l` that are kept, in order.
pub open spec fn kept_features(l: MvtLayer, hits: Seq<FeatureHits>, regions: Seq<CompiledFilterFeature>, n: int) -> Seq<int>
    decreases n,
{
    if n <= 0 {
        Seq::empty()
    } else {
        let rest = kept_features(l, hits, regions, n - 1);
        if feature_removed(l, hits, regions, n - 1) {
            rest
        } else {
            rest.push(n - 1)
        }
    }
}

/// A rebuilt dictionary value stands for an input one: it is held the
/// same way, or equal to it as a tag value.
pub open spec fn represents(d: TagValue, v: TagValue) -> bool {
    same_repr(d, v) || tag_values_equal(d, v)
}

/// The tag list `t`, read through the dictionaries `keys` and `values`,
/// gives the properties `kept` (value indexes into `in_values`).
pub open spec fn tags_decode_to(
    keys: Seq<String>,
    values: Seq<TagValue>,
    t: Seq<u32>,
    in_values: Seq<TagValue>,
    kept: Seq<(Seq<char>, int)>,
) -> bool {
    &&& t.len() == 2 * kept.len()
    &&& forall|p: int|
        0 <= p < kept.len() ==> keys[#[trigger] key_at(t, p) as int]@ == kept[p].0 && represents(
            values[val_at(t, p) as int],
            in_values[kept[p].1],
        )
}

/// No two keys have the same text.
pub open spec fn keys_distinct(keys: Seq<String>) -> bool {
    forall|a: int, b: int| 0 <= a < b < keys.len() ==> keys[a]@ != keys[b]@
}

/// The index of `k` in `keys`, appended when it is not there.
fn intern_key(keys: &mut Vec<String>, k: &String) -> (idx: usize)
    requires
        keys_distinct(old(keys)@),
    ensures
        keys_distinct(final(keys)@),
        idx < final(keys).len(),
        final(keys)@[idx as int]@ == k@,
        final(keys)@.subrange(0, old(keys).len() as int) == old(keys)@,
        final(keys).len() == old(keys).len() || (final(keys).len() == old(keys).len() + 1 && idx == old(keys).len()),
{
    let mut i: usize = 0;
    while i < keys.len()
        invariant
            keys@ == old(keys)@,
            keys_distinct(keys@),
            i <= keys.len(),
            forall|a: int| 0 <= a < i ==> keys[a]@ != k@,
        decreases keys.len() - i,
    {
        if str_eq(keys[i].as_str(), k.as_str()) {
            assert(keys@.subrange(0, keys.len() as int) =~= keys@);
            return i;
        }
        i = i + 1;
    }
    keys.push(k.clone());
    assert(final(keys)@.subrange(0, old(keys).len() as int) =~= old(keys)@);
    keys.len() - 1
}

/// The index of a value equal to `v` in `values`, a copy of `v` appended
/// when there is none.
fn intern_value(values: &mut Vec<TagValue>, v: &TagValue) -> (idx: usize)
    ensures
        idx < final(values).len(),
        represents(final(values)@[idx as int], *v),
        final(values)@.subrange(0, old(values).len() as int) == old(values)@,
        final(values).len() == old(values).len() || (final(values).len() == old(values).len() + 1 && idx
            == old(values).len()),
{
    let mut i: usize = 0;
    while i < values.len()
        invariant
            values@ == old(values)@,
            i <= values.len(),
        decreases values.len() - i,
    {
        if values[i].same_as(v) {
            assert(values@.subrange(0, values.len() as int) =~= values@);
            return i;
        }
        i = i + 1;
    }
    values.push(v.copy());
    assert(final(values)@.subrange(0, old(values).len() as int) =~= old(values)@);
    values.len() - 1
}

/// `r` holds the properties `ps`: the same key texts and value indexes.
pub open spec fn props_match(r: Seq<(String, usize)>, ps: Seq<(Seq<char>, int)>) -> bool {
    r.len() == ps.len() && forall|q: int| 0 <= q < r.len() ==> (#[trigger] r[q]).0@ == ps[q].0 && r[q].1 as int == ps[q].1
}

proof fn lemma_position_of(ps: Seq<(Seq<char>, int)>, k: Seq<char>, i: int)
    requires
        0 <= i <= ps.len(),
        forall|a: int| 0 <= a < i ==> (#[trigger] ps[a]).0 != k,
        i < ps.len() ==> ps[i].0 == k,
    ensures
        position_of(ps, k) == (if i < ps.len() {
            Some(i)
        } else {
            None::<int>
        }),
    decreases ps.len(),
{
    if ps.len() > 0 {
        let s = ps.drop_last();
        if i < ps.len() - 1 {
            lemma_position_of(s, k, i);
        } else {
            lemma_position_of(s, k, s.len() as int);
        }
    }
}

proof fn lemma_position_bound(ps: Seq<(Seq<char>, int)>, k: Seq<char>)
    ensures
        position_of(ps, k) is Some ==> 0 <= position_of(ps, k)->0 < ps.len(),
    decreases ps.len(),
{
    if ps.len() > 0 {
        lemma_position_bound(ps.drop_last(), k);
    }
}

proof fn lemma_properties_len(keys: Seq<String>, t: Seq<u32>, n: int)
    ensures
        properties_of(keys, t, n).len() <= if n < 0 {
            0
        } else {
            n
        },
    decreases n,
{
    if n > 0 {
        lemma_properties_len(keys, t, n - 1);
        let ps = properties_of(keys, t, n - 1);
        let k = keys[key_at(t, n - 1) as int]@;
        lemma_position_bound(ps, k);
    }
}

/// The properties of a feature with tags `tags`, by key text and value index.
fn collect_properties(layer: &MvtLayer, tags: &Vec<u32>) -> (r: Vec<(String, usize)>)
    requires
        tags_in_range(tags@, layer.keys.len() as int, layer.values.len() as int),
    ensures
        props_match(r@, properties_of(layer.keys@, tags@, pairs(tags@))),
        forall|q: int| 0 <= q < r.len() ==> (#[trigger] r[q]).1 < layer.values.len(),
{
    let mut r: Vec<(String, usize)> = Vec::new();
    let n = tags.len() / 2;
    let mut m: usize = 0;
    while m < n
        invariant
            n == tags.len() / 2,
            m <= n,
            tags_in_range(tags@, layer.keys.len() as int, layer.values.len() as int),
            props_match(r@, properties_of(layer.keys@, tags@, m as int)),
            forall|q: int| 0 <= q < r.len() ==> (#[trigger] r[q]).1 < layer.values.len(),
        decreases n - m,
    {
        let ghost ps = properties_of(layer.keys@, tags@, m as int);
        assert(key_at(tags@, m as int) < layer.keys.len());
        let key = &layer.keys[tags[2 * m] as usize];
        let vidx = tags[2 * m + 1] as usize;
        let mut pos: usize = 0;
        while pos < r.len() && !str_eq(r[pos].0.as_str(), key.as_str())
            invariant
                pos <= r.len(),
                props_match(r@, ps),
                forall|a: int| 0 <= a < pos ==> (#[trigger] ps[a]).0 != key@,
            decreases r.len() - pos,
        {
            pos = pos + 1;
        }
        proof {
            lemma_position_of(ps, key@, pos as int);
        }
        if pos < r.len() {
            r.set(pos, (key.clone(), vidx));
            assert(props_match(r@, ps.update(pos as int, (key@, vidx as int))));
        } else {
            r.push((key.clone(), vidx));
            assert(props_match(r@, ps.push((key@, vidx as int))));
        }
        m = m + 1;
    }
    r
}

/// The `i`-th feature of `l` became `f`, read through `keys` and `values`:
/// same id, type and geometry, and the tags it keeps.
pub open spec fn feature_rewritten(
    l: MvtLayer,
    hits: Seq<FeatureHits>,
    regions: Seq<CompiledFilterFeature>,
    i: int,
    f: MvtFeature,
    keys: Seq<String>,
    values: Seq<TagValue>,
) -> bool {
    &&& f.id == l.features[i].id
    &&& f.geom_type == l.features[i].geom_type
    &&& f.geometry@ == l.features[i].geometry@
    &&& tags_decode_to(keys, values, f.tags@, l.values@, kept_tags(l, hits, regions, i, feature_props(l, l.features[i])))
}

/// `out` is `l` rewritten under the filter: the kept features in their
/// order, each with the tags it keeps, over rebuilt dictionaries whose every
/// entry is used and whose keys are distinct.
pub open spec fn layer_rewritten(l: MvtLayer, hits: Seq<FeatureHits>, regions: Seq<CompiledFilterFeature>, out: MvtLayer) -> bool {
    let kept = kept_features(l, hits, regions, l.features.len() as int);
    &&& out.name@ == l.name@
    &&& out.version == l.version
    &&& out.extent == l.extent
    &&& out.features.len() == kept.len()
    &&& forall|j: int|
        0 <= j < kept.len() ==> feature_rewritten(l, hits, regions, kept[j], #[trigger] out.features[j], out.keys@, out.values@)
    &&& crate::mvt::layer_well_formed(out)
    &&& crate::mvt::dictionaries_used(out)
    &&& keys_distinct(out.keys@)
}

/// Every feature of `l` has its tags within the dictionaries.
pub open spec fn layer_tags_in_range(l: MvtLayer) -> bool {
    forall|i: int|
        0 <= i < l.features.len() ==> tags_in_range(#[trigger] l.features[i].tags@, l.keys.len() as int, l.values.len() as int)
}

proof fn lemma_decode_grow(
    keys: Seq<String>,
    keys2: Seq<String>,
    values: Seq<TagValue>,
    values2: Seq<TagValue>,
    t: Seq<u32>,
    in_values: Seq<TagValue>,
    kept: Seq<(Seq<char>, int)>,
)
    requires
        tags_decode_to(keys, values, t, in_values, kept),
        tags_in_range(t, keys.len() as int, values.len() as int),
        keys.len() <= keys2.len(),
        values.len() <= values2.len(),
        keys2.subrange(0, keys.len() as int) == keys,
        values2.subrange(0, values.len() as int) == values,
    ensures
        tags_decode_to(keys2, values2, t, in_values, kept),
        tags_in_range(t, keys2.len() as int, values2.len() as int),
{
    assert forall|p: int| 0 <= p < kept.len() implies keys2[#[trigger] key_at(t, p) as int]@ == kept[p].0 && represents(
        values2[val_at(t, p) as int],
        in_values[kept[p].1],
    ) by {
        assert(keys2.subrange(0, keys.len() as int)[key_at(t, p) as int] == keys2[key_at(t, p) as int]);
        assert(values2.subrange(0, values.len() as int)[val_at(t, p) as int] == values2[val_at(t, p) as int]);
    }
}

proof fn lemma_push_pair(
    keys: Seq<String>,
    values: Seq<TagValue>,
    t: Seq<u32>,
    in_values: Seq<TagValue>,
    kept: Seq<(Seq<char>, int)>,
    ki: u32,
    vi: u32,
    entry: (Seq<char>, int),
)
    requires
        tags_decode_to(keys, values, t, in_values, kept),
        tags_in_range(t, keys.len() as int, values.len() as int),
        ki < keys.len(),
        vi < values.len(),
        keys[ki as int]@ == entry.0,
        represents(values[vi as int], in_values[entry.1]),
    ensures
        tags_decode_to(keys, values, t.push(ki).push(vi), in_values, kept.push(entry)),
        tags_in_range(t.push(ki).push(vi), keys.len() as int, values.len() as int),
        refs_key(t.push(ki).push(vi), ki as int),
        refs_value(t.push(ki).push(vi), vi as int),
        forall|k: int| refs_key(t, k) ==> refs_key(t.push(ki).push(vi), k),
        forall|v: int| refs_value(t, v) ==> refs_value(t.push(ki).push(vi), v),
{
    let t2 = t.push(ki).push(vi);
    assert(key_at(t2, kept.len() as int) == ki);
    assert(val_at(t2, kept.len() as int) == vi);
    assert forall|p: int| 0 <= p < pairs(t) implies key_at(t2, p) == key_at(t, p) && val_at(t2, p) == val_at(t, p) by {}
    assert forall|k: int| refs_key(t, k) implies refs_key(t2, k) by {
        let p = choose|p: int| 0 <= p < pairs(t) && #[trigger] key_at(t, p) == k;
        assert(key_at(t2, p) == k);
    }
    assert forall|v: int| refs_value(t, v) implies refs_value(t2, v) by {
        let p = choose|p: int| 0 <= p < pairs(t) && #[trigger] val_at(t, p) == v;
        assert(val_at(t2, p) == v);
    }
    assert forall|p: int| 0 <= p < pairs(t2) implies #[trigger] key_at(t2, p) < keys.len() && val_at(t2, p) < values.len() by {
        if p < pairs(t) {
            assert(key_at(t, p) < keys.len());
        }
    }
    let kept2 = kept.push(entry);
    assert forall|p: int| 0 <= p < kept2.len() implies keys[#[trigger] key_at(t2, p) as int]@ == kept2[p].0 && represents(
        values[val_at(t2, p) as int],
        in_values[kept2[p].1],
    ) by {
        if p < kept.len() {
            assert(key_at(t, p) == key_at(t2, p));
        }
    }
}

proof fn lemma_pair_total_prefix(fs: Seq<MvtFeature>, i: int)
    requires
        0 <= i < fs.len(),
    ensures
        pair_total(fs.subrange(0, i + 1)) == pair_total(fs.subrange(0, i)) + pairs(fs[i].tags@),
        pair_total(fs.subrange(0, i + 1)) <= pair_total(fs),
    decreases fs.len() - i,
{
    assert(fs.subrange(0, i + 1).drop_last() =~= fs.subrange(0, i));
    if i + 1 < fs.len() {
        lemma_pair_total_prefix(fs, i + 1);
        lemma_pair_total_nonneg(fs[i + 1].tags@);
    } else {
        assert(fs.subrange(0, i + 1) =~= fs);
    }
}

proof fn lemma_pair_total_nonneg(t: Seq<u32>)
    ensures
        pairs(t) >= 0,
{
}

fn check_tags(tags: &Vec<u32>, n_keys: usize, n_values: usize) -> (r: bool)
    ensures
        r == tags_in_range(tags@, n_keys as int, n_values as int),
{
    let n = tags.len() / 2;
    let mut p: usize = 0;
    while p < n
        invariant
            n == tags.len() / 2,
            p <= n,
            forall|a: int| 0 <= a < p ==> #[trigger] key_at(tags@, a) < n_keys && val_at(tags@, a) < n_values,
        decreases n - p,
    {
        if tags[2 * p] as usize >= n_keys || tags[2 * p + 1] as usize >= n_values {
            assert(!(key_at(tags@, p as int) < n_keys && val_at(tags@, p as int) < n_values));
            return false;
        }
        p = p + 1;
    }
    true
}

fn copy_words(v: &Vec<u32>) -> (r: Vec<u32>)
    ensures
        r@ == v@,
{
    let mut r: Vec<u32> = Vec::new();
    let mut i: usize = 0;
    while i < v.len()
        invariant
            i <= v.len(),
            r@ == v@.subrange(0, i as int),
        decreases v.len() - i,
    {
        r.push(v[i]);
        assert(v@.subrange(0, i + 1) =~= v@.subrange(0, i as int).push(v[i as int]));
        i = i + 1;
    }
    assert(v@.subrange(0, i as int) =~= v@);
    r
}

fn region_removes_feature(regions: &Vec<CompiledFilterFeature>, hit: &Vec<usize>, ctx: &EvaluationContext) -> (r: bool)
    requires
        forall|j: int| 0 <= j < hit.len() ==> hit[j] < regions.len(),
    ensures
        r == some_region_removes_feature(regions@, hit@, ctx.model()),
{
    let mut j: usize = 0;
    while j < hit.len()
        invariant
            j <= hit.len(),
            forall|a: int| 0 <= a < hit.len() ==> hit[a] < regions.len(),
            forall|a: int| 0 <= a < j ==> !removes_feature(regions@[#[trigger] hit@[a] as int], ctx.model()),
        decreases hit.len() - j,
    {
        if let Ok(true) = regions[hit[j]].should_remove_feature(ctx) {
            assert(removes_feature(regions@[hit@[j as int] as int], ctx.model()));
            return true;
        }
        j = j + 1;
    }
    false
}

fn region_removes_tag(regions: &Vec<CompiledFilterFeature>, hit: &Vec<usize>, ctx: &EvaluationContext) -> (r: bool)
    requires
        forall|j: int| 0 <= j < hit.len() ==> hit[j] < regions.len(),
    ensures
        r == some_region_removes_tag(regions@, hit@, ctx.model()),
{
    let mut j: usize = 0;
    while j < hit.len()
        invariant
            j <= hit.len(),
            forall|a: int| 0 <= a < hit.len() ==> hit[a] < regions.len(),
            forall|a: int| 0 <= a < j ==> !removes_tag(regions@[#[trigger] hit@[a] as int], ctx.model()),
        decreases hit.len() - j,
    {
        if let Ok(true) = regions[hit[j]].should_remove_tag(ctx) {
            assert(removes_tag(regions@[hit@[j as int] as int], ctx.model()));
            return true;
        }
        j = j + 1;
    }
    false
}

/// The context of a feature with properties `props` (value indexes into
/// the layer's values) and geometry kind `kind`.
fn feature_context(layer: &MvtLayer, props: &Vec<(String, usize)>, kind: &String) -> (c: EvaluationContext)
    requires
        forall|q: int| 0 <= q < props.len() ==> (#[trigger] props[q]).1 < layer.values.len(),
    ensures
        c.model().layer == layer.name@,
        c.model().key is None,
        c.model().geom == Some(kind@),
        c.model().props.len() == props.len(),
        forall|q: int|
            0 <= q < props.len() ==> (#[trigger] c.model().props[q]) == (
                props[q].0@,
                tag_value_model(layer.values[props[q].1 as int]),
            ),
{
    let mut typed: Vec<(String, TagValue)> = Vec::new();
    let mut q: usize = 0;
    while q < props.len()
        invariant
            q <= props.len(),
            forall|a: int| 0 <= a < props.len() ==> (#[trigger] props[a]).1 < layer.values.len(),
            typed.len() == q,
            forall|a: int|
                0 <= a < q ==> (#[trigger] typed[a]).0@ == props[a].0@ && tag_value_model(typed[a].1)
                    == tag_value_model(layer.values[props[a].1 as int]),
        decreases props.len() - q,
    {
        typed.push((props[q].0.clone(), layer.values[props[q].1].copy()));
        q = q + 1;
    }
    EvaluationContext::new(layer.name.as_str(), typed).with_geometry_type(kind.as_str())
}

/// Rewrites a layer under a filter: drops the features that an
/// intersecting region removes and the tags that one removes, and rebuilds
/// the key and value dictionaries from what is kept (see [`layer_rewritten`]).
/// `hits[i]` describes the geometry of the `i`-th feature.
pub fn transform_layer(layer: &MvtLayer, hits: &Vec<FeatureHits>, regions: &Vec<CompiledFilterFeature>) -> (r: Result<
    MvtLayer,
    TransformError,
>)
    requires
        hits.len() == layer.features.len(),
        forall|i: int, j: int|
            0 <= i < hits.len() && 0 <= j < hits[i].regions.len() ==> #[trigger] hits[i].regions[j] < regions.len(),
        pair_total(layer.features@) <= u32::MAX,
    ensures
        !layer_tags_in_range(*layer) ==> r == Err::<MvtLayer, TransformError>(TransformError::TagOutOfRange),
        layer_tags_in_range(*layer) ==> r is Ok && layer_rewritten(*layer, hits@, regions@, r->Ok_0),
{
    let n = layer.features.len();
    let mut i: usize = 0;
    while i < n
        invariant
            n == layer.features.len(),
            i <= n,
            forall|a: int|
                0 <= a < i ==> tags_in_range(#[trigger] layer.features[a].tags@, layer.keys.len() as int, layer.values.len() as int),
        decreases n - i,
    {
        if !check_tags(&layer.features[i].tags, layer.keys.len(), layer.values.len()) {
            return Err(TransformError::TagOutOfRange);
        }
        i = i + 1;
    }
    let ghost l = *layer;
    let ghost h = hits@;
    let ghost g = regions@;
    let mut keys: Vec<String> = Vec::new();
    let mut values: Vec<TagValue> = Vec::new();
    let mut features: Vec<MvtFeature> = Vec::new();
    let mut i: usize = 0;
    while i < n
        invariant
            l == *layer,
            h == hits@,
            g == regions@,
            n == layer.features.len(),
            hits.len() == n,
            forall|a: int, j: int|
                0 <= a < hits.len() && 0 <= j < hits[a].regions.len() ==> #[trigger] hits[a].regions[j] < regions.len(),
            pair_total(layer.features@) <= u32::MAX,
            i <= n,
            layer_tags_in_range(l),
            features.len() == kept_features(l, h, g, i as int).len(),
            forall|j: int|
                0 <= j < features.len() ==> feature_rewritten(
                    l,
                    h,
                    g,
                    kept_features(l, h, g, i as int)[j],
                    #[trigger] features[j],
                    keys@,
                    values@,
                ),
            forall|j: int|
                0 <= j < features.len() ==> (#[trigger] features[j]).tags.len() % 2 == 0 && tags_in_range(
                    features[j].tags@,
                    keys.len() as int,
                    values.len() as int,
                ),
            keys_distinct(keys@),
            forall|k: int| 0 <= k < keys.len() ==> #[trigger] key_used(features@, k),
            forall|v: int| 0 <= v < values.len() ==> #[trigger] value_used(features@, v),
            keys.len() <= pair_total(layer.features@.subrange(0, i as int)),
            values.len() <= pair_total(layer.features@.subrange(0, i as int)),
        decreases n - i,
    {
        proof {
            lemma_pair_total_prefix(layer.features@, i as int);
        }
        let f = &layer.features[i];
        assert(tags_in_range(f.tags@, layer.keys.len() as int, layer.values.len() as int));
        let props = collect_properties(layer, &f.tags);
        let ghost ps = feature_props(l, l.features[i as int]);
        let ghost fc = feature_ctx(l, h, i as int);
        proof {
            lemma_properties_len(l.keys@, f.tags@, pairs(f.tags@));
        }
        let ctx0 = feature_context(layer, &props, &hits[i].geometry_kind);
        proof {
            assert(ctx0.model().props =~= fc.props);
            assert(ctx0.model() == fc);
        }
        let removed = region_removes_feature(regions, &hits[i].regions, &ctx0);
        assert(removed == feature_removed(l, h, g, i as int));
        if removed {
            proof {
                assert(kept_features(l, h, g, i + 1) == kept_features(l, h, g, i as int));
            }
            i = i + 1;
            continue;
        }
        let ghost kf = kept_features(l, h, g, i as int);
        let ghost old_features = features@;
        let mut new_tags: Vec<u32> = Vec::new();
        let mut ctx = ctx0;
        let mut q: usize = 0;
        assert(ps.subrange(0, 0) =~= Seq::<(Seq<char>, int)>::empty());
        while q < props.len()
            invariant
                l == *layer,
                h == hits@,
                g == regions@,
                n == layer.features.len(),
                hits.len() == n,
                i < n,
                forall|a: int, j: int|
                    0 <= a < hits.len() && 0 <= j < hits[a].regions.len() ==> #[trigger] hits[a].regions[j] < regions.len(),
                layer_tags_in_range(l),
                props_match(props@, ps),
                ps == feature_props(l, l.features[i as int]),
                ps.len() <= pairs(l.features[i as int].tags@),
                forall|a: int| 0 <= a < props.len() ==> (#[trigger] props[a]).1 < layer.values.len(),
                fc == feature_ctx(l, h, i as int),
                ctx.model().layer == fc.layer,
                ctx.model().props == fc.props,
                ctx.model().geom == fc.geom,
                q <= props.len(),
                features@ == old_features,
                kf == kept_features(l, h, g, i as int),
                features.len() == kf.len(),
                forall|j: int|
                    0 <= j < features.len() ==> feature_rewritten(l, h, g, kf[j], #[trigger] features[j], keys@, values@),
                forall|j: int|
                    0 <= j < features.len() ==> (#[trigger] features[j]).tags.len() % 2 == 0 && tags_in_range(
                        features[j].tags@,
                        keys.len() as int,
                        values.len() as int,
                    ),
                tags_decode_to(keys@, values@, new_tags@, l.values@, kept_tags(l, h, g, i as int, ps.subrange(0, q as int))),
                tags_in_range(new_tags@, keys.len() as int, values.len() as int),
                new_tags.len() <= 2 * q,
                keys_distinct(keys@),
                forall|k: int| 0 <= k < keys.len() ==> #[trigger] key_used(features@, k) || refs_key(new_tags@, k),
                forall|v: int| 0 <= v < values.len() ==> #[trigger] value_used(features@, v) || refs_value(new_tags@, v),
                keys.len() <= pair_total(layer.features@.subrange(0, i as int)) + new_tags.len() / 2,
                values.len() <= pair_total(layer.features@.subrange(0, i as int)) + new_tags.len() / 2,
                pair_total(layer.features@.subrange(0, i as int)) + pairs(l.features[i as int].tags@) <= u32::MAX,
            decreases props.len() - q,
        {
            ctx = ctx.with_current_key(props[q].0.as_str());
            let tag_gone = region_removes_tag(regions, &hits[i].regions, &ctx);
            proof {
                assert(ctx.model() == (Ctx { key: Some(ps[q as int].0), ..fc }));
                assert(tag_gone == tag_removed(l, h, g, i as int, ps[q as int].0));
                let sub = ps.subrange(0, q + 1);
                assert(sub.drop_last() =~= ps.subrange(0, q as int));
                assert(sub.last() == ps[q as int]);
            }
            if !tag_gone {
                let ghost keys0 = keys@;
                let ghost values0 = values@;
                let ghost tags0 = new_tags@;
                let ki = intern_key(&mut keys, &props[q].0);
                let vi = intern_value(&mut values, &layer.values[props[q].1]);
                proof {
                    assert forall|j: int| 0 <= j < features.len() implies feature_rewritten(
                        l,
                        h,
                        g,
                        kf[j],
                        #[trigger] features[j],
                        keys@,
                        values@,
                    ) && features[j].tags.len() % 2 == 0 && tags_in_range(features[j].tags@, keys.len() as int, values.len() as int) by {
                        lemma_decode_grow(
                            keys0,
                            keys@,
                            values0,
                            values@,
                            features[j].tags@,
                            l.values@,
                            kept_tags(l, h, g, kf[j], feature_props(l, l.features[kf[j]])),
                        );
                    }
                    lemma_decode_grow(
                        keys0,
                        keys@,
                        values0,
                        values@,
                        tags0,
                        l.values@,
                        kept_tags(l, h, g, i as int, ps.subrange(0, q as int)),
                    );
                }
                new_tags.push(ki as u32);
                new_tags.push(vi as u32);
                proof {
                    lemma_push_pair(
                        keys@,
                        values@,
                        tags0,
                        l.values@,
                        kept_tags(l, h, g, i as int, ps.subrange(0, q as int)),
                        ki as u32,
                        vi as u32,
                        ps[q as int],
                    );
                    assert(new_tags@ == tags0.push(ki as u32).push(vi as u32));
                    assert forall|k: int| 0 <= k < keys.len() implies #[trigger] key_used(features@, k) || refs_key(new_tags@, k) by {
                        if k == ki as int {
                        } else if k < keys0.len() {
                            if !key_used(features@, k) {
                                assert(refs_key(tags0, k));
                            }
                        }
                    }
                    assert forall|v: int| 0 <= v < values.len() implies #[trigger] value_used(features@, v) || refs_value(new_tags@, v) by {
                        if v == vi as int {
                        } else if v < values0.len() {
                            if !value_used(features@, v) {
                                assert(refs_value(tags0, v));
                            }
                        }
                    }
                }
            }
            q = q + 1;
        }
        proof {
            assert(ps.subrange(0, q as int) =~= ps);
        }
        let nf = MvtFeature { id: f.id, tags: new_tags, geom_type: f.geom_type, geometry: copy_words(&f.geometry) };
        features.push(nf);
        proof {
            assert(kept_features(l, h, g, i + 1) == kf.push(i as int));
            assert forall|j: int| 0 <= j < features.len() implies feature_rewritten(
                l,
                h,
                g,
                kept_features(l, h, g, i + 1)[j],
                #[trigger] features[j],
                keys@,
                values@,
            ) by {
                if j < old_features.len() {
                    assert(features[j] == old_features[j]);
                }
            }
            assert forall|k: int| 0 <= k < keys.len() implies #[trigger] key_used(features@, k) by {
                if key_used(old_features, k) {
                    let j = choose|j: int| 0 <= j < old_features.len() && refs_key(#[trigger] old_features[j].tags@, k);
                    assert(features@[j] == old_features[j]);
                } else {
                    assert(refs_key(features@[old_features.len() as int].tags@, k));
                }
            }
            assert forall|v: int| 0 <= v < values.len() implies #[trigger] value_used(features@, v) by {
                if value_used(old_features, v) {
                    let j = choose|j: int| 0 <= j < old_features.len() && refs_value(#[trigger] old_features[j].tags@, v);
                    assert(features@[j] == old_features[j]);
                } else {
                    assert(refs_value(features@[old_features.len() as int].tags@, v));
                }
            }
        }
        i = i + 1;
    }
    Ok(MvtLayer { version: layer.version, name: layer.name.clone(), features, keys, values, extent: layer.extent })
}

proof fn lemma_no_hits_keep_tags(
    l: MvtLayer,
    hits: Seq<FeatureHits>,
    regions: Seq<CompiledFilterFeature>,
    i: int,
    ps: Seq<(Seq<char>, int)>,
)
    requires
        0 <= i < hits.len(),
        hits[i].regions.len() == 0,
    ensures
        kept_tags(l, hits, regions, i, ps) == ps,
    decreases ps.len(),
{
    if ps.len() > 0 {
        lemma_no_hits_keep_tags(l, hits, regions, i, ps.drop_last());
        assert(ps.drop_last().push(ps.last()) =~= ps);
    }
}

proof fn lemma_no_hits_keep_features(l: MvtLayer, hits: Seq<FeatureHits>, regions: Seq<CompiledFilterFeature>, n: int)
    requires
        0 <= n <= hits.len(),
        forall|i: int| 0 <= i < hits.len() ==> (#[trigger] hits[i]).regions.len() == 0,
    ensures
        kept_features(l, hits, regions, n) == Seq::new(n as nat, |i: int| i),
    decreases n,
{
    if n > 0 {
        lemma_no_hits_keep_features(l, hits, regions, n - 1);
        assert(hits[n - 1].regions.len() == 0);
        assert(kept_features(l, hits, regions, n) =~= Seq::new(n as nat, |i: int| i));
    }
}

/// Where no feature meets a filter region, nothing is removed: every
/// feature is kept, in order, with all of its properties.
pub proof fn lemma_unfiltered_layer_keeps_everything(l: MvtLayer, hits: Seq<FeatureHits>, regions: Seq<CompiledFilterFeature>)
    requires
        hits.len() == l.features.len(),
        forall|i: int| 0 <= i < hits.len() ==> (#[trigger] hits[i]).regions.len() == 0,
    ensures
        kept_features(l, hits, regions, l.features.len() as int) == Seq::new(l.features.len() as nat, |i: int| i),
        forall|i: int|
            0 <= i < l.features.len() ==> kept_tags(l, hits, regions, i, feature_props(l, #[trigger] l.features[i]))
                == feature_props(l, l.features[i]),
{
    lemma_no_hits_keep_features(l, hits, regions, l.features.len() as int);
    assert forall|i: int| 0 <= i < l.features.len() implies kept_tags(
        l,
        hits,
        regions,
        i,
        feature_props(l, #[trigger] l.features[i]),
    ) == feature_props(l, l.features[i]) by {
        lemma_no_hits_keep_tags(l, hits, regions, i, feature_props(l, l.features[i]));
    }
}

/// A vector tile: its layers.
#[derive(Debug, Clone)]
pub struct MvtTile {
    pub layers: Vec<MvtLayer>,
}

/// The hits of every feature of every layer of `tile` fit it and index into `regions`.
pub open spec fn hits_fit(tile: MvtTile, hits: Seq<Vec<FeatureHits>>, regions: Seq<CompiledFilterFeature>) -> bool {
    &&& hits.len() == tile.layers.len()
    &&& forall|k: int|
        0 <= k < hits.len() ==> (#[trigger] hits[k]).len() == tile.layers[k].features.len() && forall|i: int, j: int|
            0 <= i < hits[k].len() && 0 <= j < hits[k][i].regions.len() ==> #[trigger] hits[k][i].regions[j]
                < regions.len()
}

/// Rewrites every layer of a tile (see [`transform_layer`]); `hits[k]`
/// describes the features of the `k`-th layer. The first layer with a tag
/// out of range makes the whole tile fail.
pub fn transform_tile(tile: &MvtTile, hits: &Vec<Vec<FeatureHits>>, regions: &Vec<CompiledFilterFeature>) -> (r: Result<
    MvtTile,
    TransformError,
>)
    requires
        hits_fit(*tile, hits@, regions@),
        forall|k: int| 0 <= k < tile.layers.len() ==> pair_total(#[trigger] tile.layers[k].features@) <= u32::MAX,
    ensures
        (exists|k: int| 0 <= k < tile.layers.len() && !layer_tags_in_range(#[trigger] tile.layers[k])) ==> r
            == Err::<MvtTile, TransformError>(TransformError::TagOutOfRange),
        (forall|k: int| 0 <= k < tile.layers.len() ==> layer_tags_in_range(#[trigger] tile.layers[k])) ==> r is Ok
            && r->Ok_0.layers.len() == tile.layers.len() && forall|k: int|
            0 <= k < tile.layers.len() ==> layer_rewritten(tile.layers[k], hits[k]@, regions@, #[trigger] r->Ok_0.layers[k]),
{
    let mut layers: Vec<MvtLayer> = Vec::new();
    let mut k: usize = 0;
    while k < tile.layers.len()
        invariant
            hits_fit(*tile, hits@, regions@),
            forall|a: int| 0 <= a < tile.layers.len() ==> pair_total(#[trigger] tile.layers[a].features@) <= u32::MAX,
            k <= tile.layers.len(),
            layers.len() == k,
            forall|a: int| 0 <= a < k ==> layer_tags_in_range(#[trigger] tile.layers[a]),
            forall|a: int| 0 <= a < k ==> layer_rewritten(tile.layers[a], hits[a]@, regions@, #[trigger] layers[a]),
        decreases tile.layers.len() - k,
    {
        assert(hits[k as int].len() == tile.layers[k as int].features.len());
        match transform_layer(&tile.layers[k], &hits[k], regions) {
            Ok(l) => layers.push(l),
            Err(e) => return Err(e),
        }
        k = k + 1;
    }
    Ok(MvtTile { layers })
}

} // verus!
