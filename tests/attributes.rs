use n5::compression::{CompressionType, RawCompression};
use n5::json::{copy_json, json_eq, merge};
use n5::version::{library_version, parse_version, version_of_triple};
use n5::{
    is_version_compatible, BlockCoord, DataType, DatasetAttributes, GridCoord, JsonValue, N5Error,
    Version,
};

fn obj(entries: Vec<(&str, JsonValue)>) -> JsonValue {
    JsonValue::Object(entries.into_iter().map(|(k, v)| (k.to_string(), v)).collect())
}

fn num(x: &str) -> JsonValue {
    JsonValue::Number(x.to_string())
}

fn text(x: &str) -> JsonValue {
    JsonValue::String(x.to_string())
}

fn nums(xs: &[&str]) -> JsonValue {
    JsonValue::Array(xs.iter().map(|x| num(x)).collect())
}

fn raw() -> JsonValue {
    obj(vec![("type", text("raw"))])
}

fn same_attrs(a: &DatasetAttributes, b: &DatasetAttributes) -> bool {
    a.get_dimensions() == b.get_dimensions()
        && a.get_block_size() == b.get_block_size()
        && a.get_data_type() == b.get_data_type()
        && a.get_compression() == b.get_compression()
}

#[test]
fn create_dataset() {
    let data_attrs = DatasetAttributes::new(
        GridCoord::from_slice(&[10, 10, 10]),
        BlockCoord::from_slice(&[5, 5, 5]),
        DataType::INT32,
        CompressionType::Raw(RawCompression::default()),
    );
    let mut node = obj(vec![]);
    merge(&mut node, &data_attrs.to_json());
    let read = DatasetAttributes::from_json(&node).expect("Failed to read dataset attributes");
    assert_eq!(read, data_attrs);
    assert!(same_attrs(&read, &data_attrs));
    assert_eq!(read.get_num_blocks(), 8);
}

#[test]
fn dataset_json_layout() {
    let a = DatasetAttributes::new(
        GridCoord::from_slice(&[7, 18446744073709551615]),
        BlockCoord::from_slice(&[5, 4294967295]),
        DataType::FLOAT64,
        CompressionType::default(),
    );
    let expected = obj(vec![
        ("dimensions", nums(&["7", "18446744073709551615"])),
        ("blockSize", nums(&["5", "4294967295"])),
        ("dataType", text("float64")),
        ("compression", raw()),
    ]);
    assert!(json_eq(&a.to_json(), &expected));
}

#[test]
fn dataset_json_errors() {
    let good = |dims: JsonValue, bs: JsonValue, dt: &str| {
        obj(vec![("dimensions", dims), ("blockSize", bs), ("dataType", text(dt)), ("compression", raw()), ("user", text("kept"))])
    };
    let ok = DatasetAttributes::from_json(&good(nums(&["3", "4"]), nums(&["1", "2"]), "uint8")).unwrap();
    assert_eq!(ok.get_dimensions(), &[3, 4]);
    assert_eq!(*ok.get_data_type(), DataType::UINT8);
    let mismatch = good(nums(&["3", "4"]), nums(&["1"]), "uint8");
    assert_eq!(DatasetAttributes::from_json(&mismatch).err(), Some(N5Error::InvalidInput));
    let zero = good(nums(&["3"]), nums(&["0"]), "uint8");
    assert_eq!(DatasetAttributes::from_json(&zero).err(), Some(N5Error::InvalidData));
    let too_big = good(nums(&["3"]), nums(&["4294967296"]), "uint8");
    assert_eq!(DatasetAttributes::from_json(&too_big).err(), Some(N5Error::InvalidData));
    let negative = good(nums(&["-3"]), nums(&["1"]), "uint8");
    assert_eq!(DatasetAttributes::from_json(&negative).err(), Some(N5Error::InvalidData));
    let bad_type = good(nums(&["3"]), nums(&["1"]), "complex128");
    assert_eq!(DatasetAttributes::from_json(&bad_type).err(), Some(N5Error::InvalidData));
    let gzip = obj(vec![("dimensions", nums(&["3"])), ("blockSize", nums(&["1"])), ("dataType", text("int8")), ("compression", obj(vec![("type", text("gzip"))]))]);
    assert_eq!(DatasetAttributes::from_json(&gzip).err(), Some(N5Error::InvalidData));
    assert_eq!(DatasetAttributes::from_json(&obj(vec![])).err(), Some(N5Error::InvalidData));
}

#[test]
fn attribute_merge_scenario() {
    let mut root = obj(vec![("n5", text("2.1.3"))]);
    merge(&mut root, &obj(vec![("foo", text("bar"))]));
    merge(&mut root, &obj(vec![("baz", obj(vec![("x", num("1"))]))]));
    merge(&mut root, &obj(vec![("baz", obj(vec![("y", num("2"))]))]));
    let expected = obj(vec![
        ("n5", text("2.1.3")),
        ("foo", text("bar")),
        ("baz", obj(vec![("x", num("1")), ("y", num("2"))])),
    ]);
    assert!(json_eq(&root, &expected));
}

#[test]
fn attribute_deep_merge() {
    let mut x = obj(vec![]);
    merge(&mut x, &obj(vec![("k", obj(vec![("a", num("1"))]))]));
    merge(&mut x, &obj(vec![("k", obj(vec![("b", num("2"))]))]));
    assert!(json_eq(&x, &obj(vec![("k", obj(vec![("a", num("1")), ("b", num("2"))]))])));
}

#[test]
fn attribute_merge_idempotence() {
    let before = obj(vec![("a", num("1")), ("o", obj(vec![("p", JsonValue::Bool(true))]))]);
    let mut x = copy_json(&before);
    merge(&mut x, &obj(vec![]));
    assert!(json_eq(&x, &before));

    let update = obj(vec![("o", obj(vec![("q", JsonValue::Array(vec![num("3")]))])), ("z", JsonValue::Null)]);
    let mut once = copy_json(&before);
    merge(&mut once, &update);
    let mut twice = copy_json(&before);
    merge(&mut twice, &update);
    merge(&mut twice, &update);
    assert!(json_eq(&once, &twice));
    assert!(!json_eq(&once, &before));
}

#[test]
fn attribute_merge_replaces_leaves() {
    let mut x = obj(vec![("k", obj(vec![("a", num("1"))])), ("s", text("v"))]);
    merge(&mut x, &obj(vec![("k", num("5")), ("s", JsonValue::Null)]));
    assert!(json_eq(&x, &obj(vec![("k", num("5")), ("s", JsonValue::Null)])));
    let mut scalar = num("1");
    merge(&mut scalar, &obj(vec![("a", num("2"))]));
    assert!(json_eq(&scalar, &obj(vec![("a", num("2"))])));
}

#[test]
fn versions() {
    assert_eq!(library_version(), Version { major: 2, minor: 1, patch: 3 });
    assert_eq!(library_version().to_text(), "2.1.3");
    assert_eq!(parse_version("2.1.3"), Ok(Version { major: 2, minor: 1, patch: 3 }));
    assert_eq!(parse_version("10.0.17"), Ok(Version { major: 10, minor: 0, patch: 17 }));
    assert_eq!(parse_version("2.1"), Err(N5Error::InvalidData));
    assert_eq!(parse_version(""), Err(N5Error::InvalidData));
    assert_eq!(version_of_triple(Some((4, 5, 6))), Ok(Version { major: 4, minor: 5, patch: 6 }));
    assert_eq!(version_of_triple(None), Err(N5Error::InvalidData));
    let lib = library_version();
    assert!(is_version_compatible(&lib, &Version { major: 2, minor: 9, patch: 0 }));
    assert!(is_version_compatible(&lib, &Version { major: 1, minor: 0, patch: 0 }));
    assert!(!is_version_compatible(&lib, &Version { major: 3, minor: 0, patch: 0 }));
}
