use hcl::Attribute;
use hcl::Block;
use hcl::BlockLabel;
use hcl::Body;
use hcl::Number;
use hcl::ObjectMap;
use hcl::Structure;
use hcl::Value;

fn s(text: &str) -> String {
    text.to_owned()
}

fn attr(key: &str, value: Value) -> Attribute {
    Attribute::new(s(key), value)
}

fn text_value(v: &str) -> Value {
    Value::String(s(v))
}

fn int_value(n: i64) -> Value {
    Value::Number(Number::from_i64(n))
}

fn obj(entries: Vec<(&str, Value)>) -> Value {
    let mut m = ObjectMap::new();
    for (k, v) in entries {
        m.insert(s(k), v);
    }
    Value::Object(m)
}

#[test]
fn test_into_value() {
    let body = Body::builder()
        .add_attribute(attr("foo", text_value("bar")))
        .add_attribute(attr("bar", text_value("baz")))
        .add_block(
            Block::builder(s("bar"))
                .add_label(BlockLabel::string_lit(s("baz")))
                .add_attribute(attr("foo", text_value("bar")))
                .build(),
        )
        .add_block(
            Block::builder(s("bar"))
                .add_label(BlockLabel::string_lit(s("qux")))
                .add_attribute(attr("foo", int_value(1)))
                .build(),
        )
        .add_block(
            Block::builder(s("bar"))
                .add_label(BlockLabel::string_lit(s("baz")))
                .add_attribute(attr("bar", text_value("baz")))
                .build(),
        )
        .add_attribute(attr("foo", text_value("baz")))
        .build();

    let expected = obj(vec![
        ("foo", text_value("baz")),
        (
            "bar",
            obj(vec![
                (
                    "baz",
                    Value::Array(vec![
                        obj(vec![("foo", text_value("bar"))]),
                        obj(vec![("bar", text_value("baz"))]),
                    ]),
                ),
                ("qux", obj(vec![("foo", int_value(1))])),
            ]),
        ),
    ]);

    assert_eq!(body.into_value(), expected);
}

#[test]
fn singleton_block_flattens() {
    let body = Body::builder()
        .add_block(
            Block::builder(s("b")).add_attribute(attr("x", int_value(1))).build(),
        )
        .build();
    let expected = obj(vec![("b", obj(vec![("x", int_value(1))]))]);
    assert_eq!(body.into_value(), expected);
}

#[test]
fn repeated_block_accumulates() {
    let body = Body::builder()
        .add_block(
            Block::builder(s("b")).add_attribute(attr("x", int_value(1))).build(),
        )
        .add_block(
            Block::builder(s("b")).add_attribute(attr("x", int_value(2))).build(),
        )
        .build();
    let expected = obj(vec![
        (
            "b",
            Value::Array(vec![
                obj(vec![("x", int_value(1))]),
                obj(vec![("x", int_value(2))]),
            ]),
        ),
    ]);
    assert_eq!(body.into_value(), expected);
}

#[test]
fn scalar_attributes_project_to_flat_object() {
    let body = Body::builder()
        .add_attribute(attr("x", int_value(1)))
        .add_attribute(attr("y", int_value(2)))
        .add_attribute(attr("x", int_value(3)))
        .build();
    let expected = obj(vec![("x", int_value(1)), ("y", int_value(2)), ("x", int_value(3))]);
    assert_eq!(body.into_value(), expected);

    let mut direct = ObjectMap::new();
    direct.insert(s("x"), int_value(1));
    direct.insert(s("y"), int_value(2));
    direct.insert(s("x"), int_value(3));
    assert_eq!(direct.len(), 2);
    assert_eq!(
        body_of_attrs().into_value(),
        Value::Object(direct),
    );
}

fn body_of_attrs() -> Body {
    Body::builder()
        .add_attribute(attr("x", int_value(1)))
        .add_attribute(attr("y", int_value(2)))
        .add_attribute(attr("x", int_value(3)))
        .build()
}

#[test]
fn type_mismatch_is_last_write_wins() {
    // an attribute after a block under the same key discards the block
    let body = Body::builder()
        .add_block(
            Block::builder(s("k")).add_attribute(attr("x", int_value(1))).build(),
        )
        .add_attribute(attr("k", int_value(9)))
        .build();
    let expected = obj(vec![("k", int_value(9))]);
    assert_eq!(body.into_value(), expected);
}

#[test]
fn labeled_blocks_merge_recursively() {
    let body = Body::builder()
        .add_block(
            Block::builder(s("svc"))
                .add_label(BlockLabel::string_lit(s("a")))
                .add_attribute(attr("port", int_value(1)))
                .build(),
        )
        .add_block(
            Block::builder(s("svc"))
                .add_label(BlockLabel::string_lit(s("b")))
                .add_attribute(attr("port", int_value(2)))
                .build(),
        )
        .build();
    let expected = obj(vec![
        (
            "svc",
            obj(vec![
                ("a", obj(vec![("port", int_value(1))])),
                ("b", obj(vec![("port", int_value(2))])),
            ]),
        ),
    ]);
    assert_eq!(body.into_value(), expected);
}

#[test]
fn empty_body_converts_to_empty_object() {
    assert_eq!(Body::new().into_value(), obj(vec![]));
}

#[test]
fn builder_interfaces_collect_in_order() {
    let built = Body::builder()
        .add_attributes(vec![attr("a", int_value(1)), attr("b", int_value(2))])
        .add_structure(Structure::Attribute(attr("c", int_value(3))))
        .build();
    let inner = built.into_inner();
    assert_eq!(inner.len(), 3);
    match &inner[0] {
        Structure::Attribute(a) => assert_eq!(a.key, "a"),
        _ => panic!("expected an attribute"),
    }

    let block = Block::builder(s("b"))
        .add_labels(vec![BlockLabel::identifier(s("web")), BlockLabel::string_lit(s("lit"))])
        .add_blocks(vec![Block::builder(s("inner")).build()])
        .build();
    assert_eq!(block.identifier, "b");
    assert_eq!(block.labels.len(), 2);
    assert_eq!(block.body.iter().len(), 1);
    assert_eq!(block.labels[0].clone().into_inner(), "web");
}

#[test]
fn object_map_keeps_first_position_on_overwrite() {
    let mut m = ObjectMap::new();
    m.insert(s("a"), int_value(1));
    m.insert(s("b"), int_value(2));
    m.insert(s("a"), int_value(3));
    assert_eq!(m.len(), 2);
    let expected = obj(vec![("a", int_value(3)), ("b", int_value(2))]);
    assert_eq!(Value::Object(m), expected);
}

#[test]
fn keys_keep_first_occurrence_order() {
    let body = Body::builder()
        .add_attribute(attr("b", int_value(1)))
        .add_attribute(attr("a", int_value(2)))
        .add_attribute(attr("b", int_value(3)))
        .build();
    match body.into_value() {
        Value::Object(m) => {
            assert_eq!(m.len(), 2);
            assert_eq!(m.entries[0].0, "b");
            assert_eq!(m.entries[1].0, "a");
            assert_eq!(m.get(&s("b")), Some(&int_value(3)));
            assert_eq!(m.get(&s("a")), Some(&int_value(2)));
            assert_eq!(m.get(&s("missing")), None);
        },
        _ => panic!("expected an object"),
    }
}

#[test]
fn default_body_is_empty() {
    let b: Body = Default::default();
    assert_eq!(b.iter().len(), 0);
}

#[test]
fn value_equality_is_structural_with_number_coercion() {
    assert_eq!(Value::Null, Value::Null);
    assert_ne!(Value::Null, Value::Bool(false));
    assert_ne!(text_value("a"), text_value("b"));
    let mut buf = ryu::Buffer::new();
    let one_float = Number::from_f64_parts((1.0f64).to_bits(), buf.format_finite(1.0f64).to_owned())
        .unwrap();
    assert_eq!(Value::Number(Number::from_u64(1)), Value::Number(one_float));
    assert_ne!(
        Value::Array(vec![int_value(1)]),
        Value::Array(vec![int_value(1), int_value(2)])
    );
}
