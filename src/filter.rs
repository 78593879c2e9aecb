use vstd::prelude::*;

use crate::compiler::{compile_spec, CompiledExpression, ExpressionCompiler};
use crate::error::CompileError;
use crate::executor::{eval, Ctx, EvaluationContext, EvaluationError, ExpressionExecutor};
use crate::json::JsonValue;
use crate::text::str_eq;
use crate::value::truthy;

verus! {

/// The filter rules of one layer, as written: a predicate whose truth
/// removes a feature, and one whose truth removes a tag.
#[derive(Debug)]
pub struct LayerFilter {
    pub feature: Option<JsonValue>,
    pub tag: Option<JsonValue>,
}

/// The filter rules of one layer, compiled.
#[derive(Debug)]
pub struct CompiledLayerFilter {
    pub feature: Option<CompiledExpression>,
    pub tag: Option<CompiledExpression>,
}

/// `r` is the outcome of compiling the optional expression `j`.
pub open spec fn compiled_option(r: Result<Option<CompiledExpression>, CompileError>, j: Option<JsonValue>) -> bool {
    match j {
        None => r == Ok::<Option<CompiledExpression>, CompileError>(None),
        Some(e) => match compile_spec(e.model()) {
            Ok(x) => r is Ok && r->Ok_0 is Some && r->Ok_0->0.model() == x && r->Ok_0->0.sets_distinct(),
            Err(err) => r == Err::<Option<CompiledExpression>, CompileError>(err),
        },
    }
}

fn compile_option(j: &Option<JsonValue>) -> (r: Result<Option<CompiledExpression>, CompileError>)
    ensures
        compiled_option(r, *j),
{
    match j {
        None => Ok(None),
        Some(e) => match ExpressionCompiler::compile(e) {
            Ok(x) => Ok(Some(x)),
            Err(err) => Err(err),
        },
    }
}

impl LayerFilter {
    /// Compiles both predicates; the first error met, the feature
    /// predicate's before the tag predicate's, is returned.
    pub fn compile(&self) -> (r: Result<CompiledLayerFilter, CompileError>)
        ensures
            match (compile_option_spec(self.feature), compile_option_spec(self.tag)) {
                (Err(e), _) => r == Err::<CompiledLayerFilter, CompileError>(e),
                (Ok(_), Err(e)) => r == Err::<CompiledLayerFilter, CompileError>(e),
                (Ok(_), Ok(_)) => r is Ok && compiled_option(Ok(r->Ok_0.feature), self.feature)
                    && compiled_option(Ok(r->Ok_0.tag), self.tag),
            },
    {
        let feature = match compile_option(&self.feature) {
            Ok(f) => f,
            Err(e) => return Err(e),
        };
        let tag = match compile_option(&self.tag) {
            Ok(t) => t,
            Err(e) => return Err(e),
        };
        Ok(CompiledLayerFilter { feature, tag })
    }
}

/// Whether compiling the optional expression `j` succeeds, and if not, how it fails.
pub open spec fn compile_option_spec(j: Option<JsonValue>) -> Result<(), CompileError> {
    match j {
        None => Ok(()),
        Some(e) => match compile_spec(e.model()) {
            Ok(_) => Ok(()),
            Err(err) => Err(err),
        },
    }
}

/// The properties of a filter region.
#[derive(Debug)]
pub struct FilterProperties {
    pub id: Option<String>,
    pub description: Option<String>,
    /// Rules by layer name, `"*"` standing for any layer; each name once.
    pub layers: Vec<(String, LayerFilter)>,
}

/// A filter region as written, apart from its geometry.
#[derive(Debug)]
pub struct FilterFeature {
    pub feature_type: String,
    pub properties: FilterProperties,
}

/// A filter collection as written, apart from its regions' geometries.
#[derive(Debug)]
pub struct FilterCollection {
    pub feature_type: String,
    pub features: Vec<FilterFeature>,
}

/// The compiled rules of a filter region, by layer name.
#[derive(Debug)]
pub struct CompiledFilterFeature {
    pub layers: Vec<(String, CompiledLayerFilter)>,
}

/// The layer filters of `layers`, compiled in order, or the first error.
pub open spec fn layers_compile(layers: Seq<(String, LayerFilter)>) -> Result<(), CompileError>
    decreases layers.len(),
{
    if layers.len() == 0 {
        Ok(())
    } else {
        match layers_compile(layers.drop_last()) {
            Err(e) => Err(e),
            Ok(_) => {
                let lf = layers.last().1;
                match (compile_option_spec(lf.feature), compile_option_spec(lf.tag)) {
                    (Err(e), _) => Err(e),
                    (Ok(_), Err(e)) => Err(e),
                    _ => Ok(()),
                }
            },
        }
    }
}

/// `c` is the compiled form of `layers`: same names, each filter compiled.
pub open spec fn layers_compiled(c: Seq<(String, CompiledLayerFilter)>, layers: Seq<(String, LayerFilter)>) -> bool {
    &&& c.len() == layers.len()
    &&& forall|i: int|
        0 <= i < c.len() ==> (#[trigger] c[i]).0@ == layers[i].0@ && compiled_option(Ok(c[i].1.feature), layers[i].1.feature)
            && compiled_option(Ok(c[i].1.tag), layers[i].1.tag)
}

impl FilterFeature {
    /// Compiles every layer filter, in order; the first error is returned.
    pub fn compile_layers(&self) -> (r: Result<Vec<(String, CompiledLayerFilter)>, CompileError>)
        ensures
            match layers_compile(self.properties.layers@) {
                Ok(_) => r is Ok && layers_compiled(r->Ok_0@, self.properties.layers@),
                Err(e) => r == Err::<Vec<(String, CompiledLayerFilter)>, CompileError>(e),
            },
    {
        let layers = &self.properties.layers;
        let mut out: Vec<(String, CompiledLayerFilter)> = Vec::new();
        let mut i: usize = 0;
        while i < layers.len()
            invariant
                layers@ == self.properties.layers@,
                i <= layers.len(),
                layers_compile(layers@.subrange(0, i as int)) == Ok::<(), CompileError>(()),
                layers_compiled(out@, layers@.subrange(0, i as int)),
            decreases layers.len() - i,
        {
            assert(layers@.subrange(0, i + 1).drop_last() =~= layers@.subrange(0, i as int));
            let compiled = match layers[i].1.compile() {
                Ok(c) => c,
                Err(e) => {
                    proof {
                        assert(layers@.subrange(0, i + 1).last() == layers@[i as int]);
                        assert(layers_compile(layers@.subrange(0, i + 1)) == Err::<(), CompileError>(e));
                        lemma_layers_compile_error(layers@, i as int);

                    }
                    return Err(e);
                },
            };
            out.push((layers[i].0.clone(), compiled));
            proof {
                assert(layers@.subrange(0, i + 1).last() == layers@[i as int]);
            }
            i = i + 1;
        }
        assert(layers@.subrange(0, i as int) =~= layers@);
        Ok(out)
    }

    /// Compiles the region's rules: its type must be `Feature` and it must
    /// name at least one layer.
    pub fn compile(&self) -> (r: Result<CompiledFilterFeature, CompileError>)
        ensures
            self.feature_type@ != "Feature"@ ==> r == Err::<CompiledFilterFeature, CompileError>(CompileError::NotFeature),
            self.feature_type@ == "Feature"@ && self.properties.layers.len() == 0 ==> r == Err::<
                CompiledFilterFeature,
                CompileError,
            >(CompileError::NoLayers),
            self.feature_type@ == "Feature"@ && self.properties.layers.len() > 0 ==> match layers_compile(
                self.properties.layers@,
            ) {
                Ok(_) => r is Ok && layers_compiled(r->Ok_0.layers@, self.properties.layers@),
                Err(e) => r == Err::<CompiledFilterFeature, CompileError>(e),
            },
    {
        if !str_eq(self.feature_type.as_str(), "Feature") {
            return Err(CompileError::NotFeature);
        }
        if self.properties.layers.len() == 0 {
            return Err(CompileError::NoLayers);
        }
        match self.compile_layers() {
            Ok(layers) => Ok(CompiledFilterFeature { layers }),
            Err(e) => Err(e),
        }
    }
}

/// A failing layer filter stops the compilation of the region's layers there.
proof fn lemma_layers_compile_error(layers: Seq<(String, LayerFilter)>, i: int)
    requires
        0 <= i < layers.len(),
        layers_compile(layers.subrange(0, i)) == Ok::<(), CompileError>(()),
        layers_compile(layers.subrange(0, i + 1)) is Err,
    ensures
        layers_compile(layers) == layers_compile(layers.subrange(0, i + 1)),
    decreases layers.len() - i,
{
    if i + 1 < layers.len() {
        let s = layers.drop_last();
        assert(s.subrange(0, i) =~= layers.subrange(0, i));
        assert(s.subrange(0, i + 1) =~= layers.subrange(0, i + 1));
        lemma_layers_compile_error(s, i);
        assert(layers.drop_last() =~= s);
    } else {
        assert(layers.subrange(0, i + 1) =~= layers);
    }
}

/// The first entry of `layers` named `name`, if any.
pub open spec fn first_named(layers: Seq<(String, CompiledLayerFilter)>, name: Seq<char>) -> Option<int>
    decreases layers.len(),
{
    if layers.len() == 0 {
        None
    } else {
        match first_named(layers.drop_last(), name) {
            Some(i) => Some(i),
            None => if layers.last().0@ == name {
                Some(layers.len() - 1)
            } else {
                None
            },
        }
    }
}

/// The rules that a region applies to the layer `layer`: those under its
/// own name when the region has them, else those under `"*"`, else none.
pub open spec fn layer_rules(layers: Seq<(String, CompiledLayerFilter)>, layer: Seq<char>) -> Option<CompiledLayerFilter> {
    match first_named(layers, layer) {
        Some(i) => Some(layers[i].1),
        None => match first_named(layers, "*"@) {
            Some(i) => Some(layers[i].1),
            None => None,
        },
    }
}

/// Whether the optional predicate holds in `c`; an absent one does not.
pub open spec fn holds(e: Option<CompiledExpression>, c: Ctx) -> bool {
    match e {
        Some(x) => truthy(eval(x.model(), c)),
        None => false,
    }
}

/// Whether a region removes the feature described by `c`.
pub open spec fn removes_feature(region: CompiledFilterFeature, c: Ctx) -> bool {
    match layer_rules(region.layers@, c.layer) {
        Some(lf) => holds(lf.feature, c),
        None => false,
    }
}

/// Whether a region removes the tag under test in `c`.
pub open spec fn removes_tag(region: CompiledFilterFeature, c: Ctx) -> bool {
    match layer_rules(region.layers@, c.layer) {
        Some(lf) => holds(lf.tag, c),
        None => false,
    }
}

fn find_named(layers: &Vec<(String, CompiledLayerFilter)>, name: &str) -> (r: Option<usize>)
    ensures
        match first_named(layers@, name@) {
            Some(i) => r == Some(i as usize),
            None => r is None,
        },
{
    let mut i: usize = 0;
    while i < layers.len()
        invariant
            i <= layers.len(),
            first_named(layers@.subrange(0, i as int), name@) is None,
        decreases layers.len() - i,
    {
        assert(layers@.subrange(0, i + 1).drop_last() =~= layers@.subrange(0, i as int));
        if str_eq(layers[i].0.as_str(), name) {
            proof {
                lemma_first_named_prefix(layers@, i as int + 1, name@);
            }
            return Some(i);
        }
        i = i + 1;
    }
    assert(layers@.subrange(0, i as int) =~= layers@);
    None
}

/// A name first found in a prefix is first found there in the whole sequence.
proof fn lemma_first_named_prefix(layers: Seq<(String, CompiledLayerFilter)>, n: int, name: Seq<char>)
    requires
        0 <= n <= layers.len(),
        first_named(layers.subrange(0, n), name) is Some,
    ensures
        first_named(layers, name) == first_named(layers.subrange(0, n), name),
    decreases layers.len() - n,
{
    if n < layers.len() {
        let s = layers.drop_last();
        assert(s.subrange(0, n) =~= layers.subrange(0, n));
        lemma_first_named_prefix(s, n, name);
    } else {
        assert(layers.subrange(0, n) =~= layers);
    }
}

proof fn lemma_first_named_bound(layers: Seq<(String, CompiledLayerFilter)>, name: Seq<char>)
    ensures
        first_named(layers, name) is Some ==> 0 <= first_named(layers, name)->0 < layers.len(),
    decreases layers.len(),
{
    if layers.len() > 0 {
        lemma_first_named_bound(layers.drop_last(), name);
    }
}

impl CompiledFilterFeature {
    fn rules_for(&self, layer: &str) -> (r: Option<usize>)
        ensures
            match layer_rules(self.layers@, layer@) {
                Some(lf) => r is Some && r->0 < self.layers.len() && self.layers@[r->0 as int].1 == lf,
                None => r is None,
            },
    {
        proof {
            lemma_first_named_bound(self.layers@, layer@);
            lemma_first_named_bound(self.layers@, "*"@);
        }
        match find_named(&self.layers, layer) {
            Some(i) => Some(i),
            None => find_named(&self.layers, "*"),
        }
    }

    /// Whether this region removes the feature that `context` describes
    /// (see [`removes_feature`]).
    pub fn should_remove_feature(&self, context: &EvaluationContext) -> (r: Result<bool, EvaluationError>)
        ensures
            r == Ok::<bool, EvaluationError>(removes_feature(*self, context.model())),
    {
        match self.rules_for(context.layer_name.as_str()) {
            Some(i) => match &self.layers[i].1.feature {
                Some(e) => ExpressionExecutor::evaluate_bool(e, context),
                None => Ok(false),
            },
            None => Ok(false),
        }
    }

    /// Whether this region removes the tag under test in `context`
    /// (see [`removes_tag`]).
    pub fn should_remove_tag(&self, context: &EvaluationContext) -> (r: Result<bool, EvaluationError>)
        ensures
            r == Ok::<bool, EvaluationError>(removes_tag(*self, context.model())),
    {
        match self.rules_for(context.layer_name.as_str()) {
            Some(i) => match &self.layers[i].1.tag {
                Some(e) => ExpressionExecutor::evaluate_bool(e, context),
                None => Ok(false),
            },
            None => Ok(false),
        }
    }
}

impl FilterCollection {
    /// Compiles every region, in order; the collection's type must be
    /// `FeatureCollection`, and the first region that fails decides the error.
    pub fn compile(&self) -> (r: Result<Vec<CompiledFilterFeature>, CompileError>)
        ensures
            self.feature_type@ != "FeatureCollection"@ ==> r == Err::<Vec<CompiledFilterFeature>, CompileError>(
                CompileError::NotFeatureCollection,
            ),
            r is Ok ==> r->Ok_0.len() == self.features.len() && forall|i: int|
                0 <= i < self.features.len() ==> layers_compiled(
                    (#[trigger] r->Ok_0[i]).layers@,
                    self.features[i].properties.layers@,
                ),
            r is Ok <==> (self.feature_type@ == "FeatureCollection"@ && forall|i: int|
                0 <= i < self.features.len() ==> region_compiles(#[trigger] self.features[i])),
    {
        if !str_eq(self.feature_type.as_str(), "FeatureCollection") {
            return Err(CompileError::NotFeatureCollection);
        }
        let mut out: Vec<CompiledFilterFeature> = Vec::new();
        let mut i: usize = 0;
        while i < self.features.len()
            invariant
                i <= self.features.len(),
                self.feature_type@ == "FeatureCollection"@,
                out.len() == i,
                forall|j: int| 0 <= j < i ==> region_compiles(#[trigger] self.features[j]),
                forall|j: int|
                    0 <= j < i ==> layers_compiled((#[trigger] out[j]).layers@, self.features[j].properties.layers@),
            decreases self.features.len() - i,
        {
            match self.features[i].compile() {
                Ok(c) => out.push(c),
                Err(e) => return Err(e),
            }
            i = i + 1;
        }
        Ok(out)
    }
}

/// Whether a region's rules compile.
pub open spec fn region_compiles(f: FilterFeature) -> bool {
    f.feature_type@ == "Feature"@ && f.properties.layers.len() > 0 && layers_compile(f.properties.layers@) is Ok
}

} // verus!
