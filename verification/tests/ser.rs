use hcl::to_string;
use hcl::to_vec;
use hcl::to_writer;
use hcl::Attribute;
use hcl::Block;
use hcl::BlockLabel;
use hcl::Body;
use hcl::Formatter;
use hcl::Number;
use hcl::ObjectMap;
use hcl::Serializer;
use hcl::Value;

fn s(text: &str) -> String {
    text.to_owned()
}

fn num_float(f: f64) -> Number {
    let mut buf = ryu::Buffer::new();
    let text = buf.format_finite(f).to_owned();
    Number::from_f64_parts(f.to_bits(), text).unwrap()
}

#[test]
fn test_to_string() {
    let mut tags = ObjectMap::new();
    tags.insert(s("Environment"), Value::String(s("production")));
    tags.insert(s("Num"), Value::Number(num_float(1.5)));

    let body = Body::builder()
        .add_block(
            Block::builder(s("resource"))
                .add_label(BlockLabel::string_lit(s("aws_s3_bucket")))
                .add_label(BlockLabel::string_lit(s("bucket")))
                .add_attribute(Attribute::new(s("name"), Value::String(s("the-bucket"))))
                .add_attribute(Attribute::new(s("force_destroy"), Value::Bool(true)))
                .add_attribute(Attribute::new(s("tags"), Value::Object(tags)))
                .add_block(
                    Block::builder(s("logging"))
                        .add_attribute(
                            Attribute::new(s("target_bucket"), Value::String(s("the-target"))),
                        )
                        .build(),
                )
                .build(),
        )
        .build();

    let expected = r#"resource "aws_s3_bucket" "bucket" {
  name = "the-bucket"
  force_destroy = true

  tags = {
    "Environment" = "production"
    "Num" = 1.5
  }

  logging {
    target_bucket = "the-target"
  }
}"#;

    assert_eq!(to_string(&body).unwrap(), expected);
}

#[test]
fn scalar_attributes_share_lines() {
    let body = Body::builder()
        .add_attribute(Attribute::new(s("a"), Value::Number(Number::from_u64(1))))
        .add_attribute(Attribute::new(s("b"), Value::Bool(true)))
        .add_attribute(Attribute::new(s("c"), Value::Null))
        .build();
    assert_eq!(to_string(&body).unwrap(), "\na = 1\nb = true\nc = null");
}

#[test]
fn collection_attribute_gets_blank_line() {
    let body = Body::builder()
        .add_attribute(Attribute::new(s("a"), Value::Number(Number::from_u64(1))))
        .add_attribute(
            Attribute::new(
                s("xs"),
                Value::Array(vec![
                    Value::Number(Number::from_u64(1)),
                    Value::Number(Number::from_u64(2)),
                ]),
            ),
        )
        .build();
    assert_eq!(to_string(&body).unwrap(), "\na = 1\n\nxs = [\n  1,\n  2\n]");
}

#[test]
fn empty_collections_collapse() {
    let body = Body::builder()
        .add_attribute(Attribute::new(s("xs"), Value::Array(Vec::new())))
        .add_attribute(Attribute::new(s("o"), Value::Object(ObjectMap::new())))
        .add_block(Block::builder(s("b")).build())
        .build();
    assert_eq!(to_string(&body).unwrap(), "\nxs = []\n\no = {}\n\nb {}");
}

#[test]
fn identifier_labels_stay_bare() {
    let body = Body::builder()
        .add_block(
            Block::builder(s("service"))
                .add_label(BlockLabel::identifier(s("web")))
                .add_label(BlockLabel::string_lit(s("frontend")))
                .add_attribute(Attribute::new(s("port"), Value::Number(Number::from_u64(80))))
                .build(),
        )
        .build();
    assert_eq!(
        to_string(&body).unwrap(),
        "service web \"frontend\" {\n  port = 80\n}"
    );
}

#[test]
fn nested_block_opens_without_blank_line() {
    let inner = Block::builder(s("c"))
        .add_attribute(Attribute::new(s("x"), Value::Number(Number::from_u64(1))))
        .build();
    let body = Body::builder()
        .add_block(Block::builder(s("b")).add_block(inner).build())
        .build();
    assert_eq!(to_string(&body).unwrap(), "b {c {\n    x = 1\n  }\n}");
}

#[test]
fn negative_and_float_numbers_render() {
    let body = Body::builder()
        .add_attribute(Attribute::new(s("n"), Value::Number(Number::from_i64(-45))))
        .add_attribute(Attribute::new(s("f"), Value::Number(num_float(2.05))))
        .build();
    assert_eq!(to_string(&body).unwrap(), "\nn = -45\nf = 2.05");
}

#[test]
fn custom_indent_unit_is_used() {
    let body = Body::builder()
        .add_block(
            Block::builder(s("b"))
                .add_attribute(Attribute::new(s("x"), Value::Number(Number::from_u64(1))))
                .build(),
        )
        .build();
    let mut ser = Serializer::with_formatter(Formatter::with_indent(s("    ")));
    ser.serialize(&body).unwrap();
    assert_eq!(ser.into_inner(), "b {\n    x = 1\n}");
}

#[test]
fn serializer_appends_across_calls() {
    let body = Body::builder()
        .add_attribute(Attribute::new(s("a"), Value::Number(Number::from_u64(1))))
        .build();
    let mut ser = Serializer::new();
    ser.serialize(&body).unwrap();
    ser.serialize(&body).unwrap();
    assert_eq!(ser.into_inner(), "\na = 1\na = 1");
}

#[test]
fn bytes_match_text() {
    let body = Body::builder()
        .add_attribute(Attribute::new(s("a"), Value::String(s("b"))))
        .build();
    let text = to_string(&body).unwrap();
    let bytes = to_vec(&body).unwrap();
    assert_eq!(bytes, text.as_bytes());
}

#[test]
fn writer_receives_the_same_bytes() {
    let body = Body::builder()
        .add_block(
            Block::builder(s("b"))
                .add_attribute(Attribute::new(s("x"), Value::Bool(false)))
                .build(),
        )
        .build();
    let mut sink: Vec<u8> = Vec::new();
    to_writer(&mut sink, &body).unwrap();
    assert_eq!(sink, to_vec(&body).unwrap());
}

#[test]
fn nested_collections_indent_per_level() {
    let body = Body::builder()
        .add_block(
            Block::builder(s("b"))
                .add_attribute(
                    Attribute::new(
                        s("xs"),
                        Value::Array(vec![Value::Number(Number::from_u64(1))]),
                    ),
                )
                .build(),
        )
        .build();
    assert_eq!(to_string(&body).unwrap(), "b {\n  xs = [\n    1\n  ]\n}");
}

#[test]
fn serialize_starts_at_the_formatter_depth() {
    let body = Body::builder()
        .add_attribute(Attribute::new(s("a"), Value::Number(Number::from_u64(1))))
        .build();
    let mut formatter = Formatter::with_indent(s("  "));
    formatter.current_indent = 1;
    let mut ser = Serializer::with_formatter(formatter);
    ser.serialize(&body).unwrap();
    assert_eq!(ser.into_inner(), "\n  a = 1");
}

#[test]
fn empty_body_renders_empty() {
    assert_eq!(to_string(&Body::new()).unwrap(), "");
}
