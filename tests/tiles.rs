use mvt_wrangler::error::CompileError;
use mvt_wrangler::filter::{CompiledFilterFeature, FilterCollection, FilterFeature, FilterProperties, LayerFilter};
use mvt_wrangler::json::{JsonNumber, JsonValue};
use mvt_wrangler::mvt::{MvtFeature, MvtLayer, TagValue};
use mvt_wrangler::reorder::ReorderBuffer;
use mvt_wrangler::tile::{transform_layer, transform_tile, FeatureHits, MvtTile, TransformError};

fn convert(v: &serde_json::Value) -> JsonValue {
    match v {
        serde_json::Value::Null => JsonValue::Null,
        serde_json::Value::Bool(b) => JsonValue::Bool(*b),
        serde_json::Value::Number(n) => JsonValue::Number(JsonNumber {
            as_i64: n.as_i64(),
            as_u64: n.as_u64(),
            text: n.to_string(),
        }),
        serde_json::Value::String(s) => JsonValue::String(s.clone()),
        serde_json::Value::Array(a) => JsonValue::Array(a.iter().map(convert).collect()),
        serde_json::Value::Object(_) => JsonValue::Object(v.to_string()),
    }
}

fn json(text: &str) -> JsonValue {
    convert(&serde_json::from_str(text).unwrap())
}

fn text(s: &str) -> TagValue {
    TagValue {
        string_value: Some(s.to_string()),
        float_value: None,
        double_value: None,
        int_value: None,
        uint_value: None,
        sint_value: None,
        bool_value: None,
    }
}

fn region(layers: Vec<(&str, Option<&str>, Option<&str>)>) -> CompiledFilterFeature {
    let feature = FilterFeature {
        feature_type: "Feature".to_string(),
        properties: FilterProperties {
            id: None,
            description: None,
            layers: layers
                .into_iter()
                .map(|(name, f, t)| (name.to_string(), LayerFilter { feature: f.map(json), tag: t.map(json) }))
                .collect(),
        },
    };
    feature.compile().unwrap()
}

fn feature(tags: Vec<u32>) -> MvtFeature {
    MvtFeature { id: None, tags, geom_type: Some(3), geometry: vec![9, 0, 0] }
}

fn hits(n: usize, kind: &str, regions: Vec<usize>) -> Vec<FeatureHits> {
    (0..n).map(|_| FeatureHits { geometry_kind: kind.to_string(), regions: regions.clone() }).collect()
}

fn decoded(layer: &MvtLayer, f: &MvtFeature) -> Vec<(String, String)> {
    let mut out: Vec<(String, String)> = f
        .tags
        .chunks(2)
        .map(|p| {
            let key = layer.keys[p[0] as usize].clone();
            let value = layer.values[p[1] as usize].string_value.clone().unwrap_or_default();
            (key, value)
        })
        .collect();
    out.sort();
    out
}

fn assert_well_formed(layer: &MvtLayer) {
    for k in 0..layer.keys.len() {
        assert!(layer.features.iter().any(|f| f.tags.chunks(2).any(|p| p[0] as usize == k)));
    }
    for v in 0..layer.values.len() {
        assert!(layer.features.iter().any(|f| f.tags.chunks(2).any(|p| p[1] as usize == v)));
    }
    for f in &layer.features {
        assert_eq!(f.tags.len() % 2, 0);
        for p in f.tags.chunks(2) {
            assert!((p[0] as usize) < layer.keys.len() && (p[1] as usize) < layer.values.len());
        }
    }
}

fn buildings() -> MvtLayer {
    MvtLayer {
        version: 2,
        name: "buildings".to_string(),
        features: vec![feature(vec![0, 0, 1, 3]), feature(vec![0, 1, 1, 3]), feature(vec![0, 2, 1, 3])],
        keys: vec!["kind".to_string(), "name".to_string()],
        values: vec![text("park"), text("house"), text("school"), text("x")],
        extent: Some(4096),
    }
}

#[test]
fn membership_filter_removes_features_and_trims_dictionaries() {
    let regions = vec![region(vec![(
        "*",
        Some(r#"["in", ["tag", "kind"], ["literal", ["park", "school"]]]"#),
        None,
    )])];
    let layer = buildings();
    let out = transform_layer(&layer, &hits(3, "Polygon", vec![0]), &regions).unwrap();
    assert_eq!(out.features.len(), 1);
    assert_eq!(
        decoded(&out, &out.features[0]),
        vec![("kind".to_string(), "house".to_string()), ("name".to_string(), "x".to_string())]
    );
    assert_eq!(out.keys.len(), 2);
    assert_eq!(out.values.len(), 2);
    assert_well_formed(&out);
}

#[test]
fn tag_filter_drops_language_names() {
    let regions = vec![region(vec![(
        "*",
        None,
        Some(
            r#"["all", ["starts-with", ["key"], "name"],
                ["not", ["in", ["regex-capture", ["key"], "^name:?(.*)$", 1], ["literal", ["", "ja"]]]]]"#,
        ),
    )])];
    let layer = MvtLayer {
        version: 2,
        name: "places".to_string(),
        features: vec![feature(vec![0, 0, 1, 1, 2, 2, 3, 3])],
        keys: vec!["name".to_string(), "name:en".to_string(), "name:ja".to_string(), "name:fr".to_string()],
        values: vec![text("a"), text("b"), text("c"), text("d")],
        extent: None,
    };
    let out = transform_layer(&layer, &hits(1, "Point", vec![0]), &regions).unwrap();
    assert_eq!(
        decoded(&out, &out.features[0]),
        vec![("name".to_string(), "a".to_string()), ("name:ja".to_string(), "c".to_string())]
    );
    assert_well_formed(&out);
}

#[test]
fn layer_specific_rules_win_over_wildcard() {
    let regions = vec![region(vec![("roads", Some("false"), None), ("*", Some("true"), None)])];
    let layer = MvtLayer { name: "roads".to_string(), ..buildings() };
    let out = transform_layer(&layer, &hits(3, "LineString", vec![0]), &regions).unwrap();
    assert_eq!(out.features.len(), 3);
    let other = transform_layer(&buildings(), &hits(3, "LineString", vec![0]), &regions).unwrap();
    assert_eq!(other.features.len(), 0);
    assert!(other.keys.is_empty() && other.values.is_empty());
}

#[test]
fn features_outside_every_region_are_untouched() {
    let regions = vec![region(vec![("*", Some("true"), Some("true"))])];
    let layer = buildings();
    let out = transform_layer(&layer, &hits(3, "Polygon", vec![]), &regions).unwrap();
    assert_eq!(out.features.len(), 3);
    for (a, b) in layer.features.iter().zip(out.features.iter()) {
        assert_eq!(decoded(&layer, a), decoded(&out, b));
        assert_eq!(a.geometry, b.geometry);
    }
    assert_well_formed(&out);
}

#[test]
fn only_the_gated_tile_is_filtered() {
    let regions = vec![region(vec![("*", Some("true"), None)])];
    let tile = MvtTile { layers: vec![buildings()] };
    let inside = transform_tile(&tile, &vec![hits(3, "Point", vec![0])], &regions).unwrap();
    let outside = transform_tile(&tile, &vec![hits(3, "Point", vec![])], &regions).unwrap();
    assert_eq!(inside.layers[0].features.len(), 0);
    assert_eq!(outside.layers[0].features.len(), 3);
}

#[test]
fn out_of_range_tags_fail_the_tile() {
    let mut layer = buildings();
    layer.features[1].tags = vec![0, 9];
    let regions: Vec<CompiledFilterFeature> = vec![];
    assert_eq!(transform_layer(&layer, &hits(3, "Point", vec![]), &regions).err(), Some(TransformError::TagOutOfRange));
}

#[test]
fn duplicate_keys_keep_the_last_value() {
    let mut layer = buildings();
    layer.features = vec![feature(vec![0, 0, 0, 1])];
    let regions: Vec<CompiledFilterFeature> = vec![];
    let out = transform_layer(&layer, &hits(1, "Point", vec![]), &regions).unwrap();
    assert_eq!(decoded(&out, &out.features[0]), vec![("kind".to_string(), "house".to_string())]);
}

#[test]
fn region_compilation_checks() {
    let bad_type = FilterFeature {
        feature_type: "Thing".to_string(),
        properties: FilterProperties { id: None, description: None, layers: vec![] },
    };
    assert_eq!(bad_type.compile().err(), Some(CompileError::NotFeature));
    let no_layers = FilterFeature {
        feature_type: "Feature".to_string(),
        properties: FilterProperties { id: None, description: None, layers: vec![] },
    };
    assert_eq!(no_layers.compile().err(), Some(CompileError::NoLayers));
    let bad_regex = FilterCollection {
        feature_type: "FeatureCollection".to_string(),
        features: vec![FilterFeature {
            feature_type: "Feature".to_string(),
            properties: FilterProperties {
                id: Some("r".to_string()),
                description: None,
                layers: vec![(
                    "*".to_string(),
                    LayerFilter { feature: None, tag: Some(json(r#"["regex-match", ["key"], "["]"#)) },
                )],
            },
        }],
    };
    assert_eq!(bad_regex.compile().err(), Some(CompileError::InvalidRegex));
    let not_collection = FilterCollection { feature_type: "Feature".to_string(), features: vec![] };
    assert_eq!(not_collection.compile().err(), Some(CompileError::NotFeatureCollection));
}

#[test]
fn reorder_buffer_releases_in_sequence() {
    let mut buffer: ReorderBuffer<char> = ReorderBuffer::new();
    let mut out = Vec::new();
    for (i, c) in [(2, 'c'), (0, 'a'), (4, 'e'), (1, 'b'), (3, 'd')] {
        out.extend(buffer.push(i, c));
    }
    assert_eq!(out, vec!['a', 'b', 'c', 'd', 'e']);
    assert!(buffer.is_empty());
}

#[test]
fn reorder_buffer_holds_back_gaps() {
    let mut buffer: ReorderBuffer<u32> = ReorderBuffer::new();
    assert!(buffer.push(1, 10).is_empty());
    assert!(!buffer.is_empty());
    assert_eq!(buffer.push(0, 0), vec![0, 10]);
    assert!(buffer.is_empty());
}

#[test]
fn ten_thousand_tiles_come_out_in_enumeration_order() {
    let n: usize = 10_000;
    let mut order: Vec<usize> = (0..n).collect();
    let mut state: u64 = 0x2545_f491_4f6c_dd1d;
    for i in (1..n).rev() {
        state ^= state << 13;
        state ^= state >> 7;
        state ^= state << 17;
        order.swap(i, (state % (i as u64 + 1)) as usize);
    }
    let mut buffer: ReorderBuffer<usize> = ReorderBuffer::new();
    let mut written = Vec::with_capacity(n);
    for i in order {
        written.extend(buffer.push(i, i * 7));
    }
    assert!(buffer.is_empty());
    assert_eq!(written, (0..n).map(|i| i * 7).collect::<Vec<_>>());
}
