use proto_convert::{
    generate_class, generate_enum, proto_to, proto_to_dart, proto_to_kotlin, proto_to_swift,
    proto_to_typescript, ProtoEnum, ProtoEnumValue, ProtoMessage, ProtoParserCore, Target,
};

fn all(text: &str) -> Vec<String> {
    vec![
        proto_to_swift(text),
        proto_to_kotlin(text),
        proto_to_typescript(text),
        proto_to_dart(text),
    ]
}

#[test]
fn plain_field_has_no_comment_and_is_single() {
    let fields = ProtoParserCore::parse_message_fields("int64 user_id = 7;").unwrap();
    assert_eq!(fields.len(), 1);
    assert_eq!(fields[0].original_name, "user_id");
    assert_eq!(fields[0].field_type, "int64");
    assert!(!fields[0].is_repeated);
    assert!(fields[0].comment.is_none());
}

#[test]
fn repeated_field_is_marked() {
    let fields = ProtoParserCore::parse_message_fields("  repeated string tags = 2;").unwrap();
    assert_eq!(fields.len(), 1);
    assert_eq!(fields[0].original_name, "tags");
    assert_eq!(fields[0].field_type, "string");
    assert!(fields[0].is_repeated);
}

#[test]
fn field_named_type_repeated_is_plain() {
    let fields = ProtoParserCore::parse_message_fields("repeated x = 1;").unwrap();
    assert_eq!(fields.len(), 1);
    assert_eq!(fields[0].field_type, "repeated");
    assert_eq!(fields[0].original_name, "x");
    assert!(!fields[0].is_repeated);
}

#[test]
fn leading_and_trailing_comments_join() {
    let fields =
        ProtoParserCore::parse_message_fields("  // X\n  string a = 1; // Y\n").unwrap();
    assert_eq!(fields.len(), 1);
    assert_eq!(fields[0].comment.as_deref(), Some("X Y"));
}

#[test]
fn only_leading_or_only_trailing_comment() {
    let fields =
        ProtoParserCore::parse_message_fields("// first\nstring a = 1;\nstring b = 2; // second")
            .unwrap();
    assert_eq!(fields.len(), 2);
    assert_eq!(fields[0].comment.as_deref(), Some("first"));
    assert_eq!(fields[1].comment.as_deref(), Some("second"));
}

#[test]
fn comment_two_lines_above_is_not_attached() {
    let fields =
        ProtoParserCore::parse_message_fields("// far\n\nstring a = 1;").unwrap();
    assert_eq!(fields.len(), 1);
    assert!(fields[0].comment.is_none());
}

#[test]
fn unrecognised_lines_are_skipped() {
    let fields = ProtoParserCore::parse_message_fields(
        "option foo = \"x\";\nstring a = 1;\nreserved 2, 3;\nmap<string, int32> m = 4;\nbool b = 5 [deprecated = true];",
    )
    .unwrap();
    assert_eq!(fields.len(), 2);
    assert_eq!(fields[0].original_name, "a");
    assert_eq!(fields[1].original_name, "b");
}

#[test]
fn enum_values_parse_with_signs() {
    let values = ProtoParserCore::parse_enum_values("A = 0;\nB = -3;\nC = +7; // c").unwrap();
    assert_eq!(values.len(), 3);
    assert_eq!(values[0].value, 0);
    assert_eq!(values[1].value, -3);
    assert_eq!(values[2].value, 7);
    assert_eq!(values[2].comment.as_deref(), Some("c"));
}

#[test]
fn enum_value_bounds() {
    let values =
        ProtoParserCore::parse_enum_values("MAX = 2147483647;\nMIN = -2147483648;").unwrap();
    assert_eq!(values[0].value, i32::MAX);
    assert_eq!(values[1].value, i32::MIN);
    let err = ProtoParserCore::parse_enum_values("BIG = 2147483648;").unwrap_err();
    assert_eq!(err, "Invalid enum value: 2147483648");
}

#[test]
fn non_numeric_enum_value_fails_everything() {
    let text = "message M { string a = 1; }\nenum E { BAD = abc; }";
    let err = ProtoParserCore::parse_proto(text).unwrap_err();
    assert_eq!(err, "Invalid enum value: abc");
    for out in all(text) {
        assert!(out.starts_with("// Error parsing proto:"));
        assert_eq!(out, "// Error parsing proto: Invalid enum value: abc");
    }
}

#[test]
fn empty_input_gives_the_sentinel() {
    for out in all("") {
        assert_eq!(out, "// No valid proto message or enum found");
    }
}

#[test]
fn two_fields_on_one_line() {
    let text = "message M { string a = 1; int32 b = 2; }";
    let outs = all(text);
    assert_eq!(outs[0], "struct M {\n    var a: String\n    var b: Int32\n}\n");
    assert_eq!(
        outs[1],
        "class M {\n    var a: String? = null\n    var b: Int? = null\n}\n"
    );
    assert_eq!(outs[2], "export interface M {\n    a: string;\n    b: number;\n}\n");
    assert_eq!(outs[3], "class M {\n    String? a;\n    int? b;\n}\n");
}

#[test]
fn two_constants_in_order() {
    let text = "enum E { A = 0; B = 1; }";
    let outs = all(text);
    assert_eq!(outs[0], "enum E: Int32 {\n    case A = 0\n    case B = 1\n}\n");
    assert_eq!(outs[1], "enum class E(val value: Int) {\n    A(0),\n    B(1),\n}\n");
    assert_eq!(outs[2], "export enum E {\n    A = 0,\n    B = 1,\n}\n");
    assert_eq!(
        outs[3],
        "enum E {\n    A(0),\n    B(1),\n    ;\n\n    final int value;\n    const E(this.value);\n}\n"
    );
}

#[test]
fn three_fields_keep_their_order() {
    let text = "message T {\n  bool z = 1;\n  string a = 2;\n  int64 m = 3;\n}";
    for out in all(text) {
        let z = out.find(" z").or(out.find("z:")).unwrap();
        let a = out.find(" a").unwrap();
        let m = out.find(" m").unwrap();
        assert!(z < a && a < m, "{}", out);
    }
    assert_eq!(
        proto_to_dart(text),
        "class T {\n    bool? z;\n    String? a;\n    int? m;\n}\n"
    );
}

#[test]
fn one_message_is_declared_by_every_target() {
    let text = "// doc\nmessage Order {\n  repeated Item items = 1;\n}\n";
    let outs = all(text);
    assert_eq!(outs[0], "/// doc\nstruct Order {\n    var items: [Item]\n}\n");
    assert_eq!(
        outs[1],
        "/** doc */\nclass Order {\n    var items: List<Item>? = null\n}\n"
    );
    assert_eq!(outs[2], "/** doc */\nexport interface Order {\n    items: Item[];\n}\n");
    assert_eq!(outs[3], "/// doc\nclass Order {\n    List<Item>? items;\n}\n");
    for out in outs {
        assert!(!out.starts_with("// Error parsing proto:"));
        assert!(!out.contains("No valid proto message"));
    }
}

#[test]
fn message_comes_before_enum() {
    let text = "enum E { A = 0; }\nmessage M { }";
    assert_eq!(proto_to_typescript(text), "export interface M {\n}\n");
}

#[test]
fn later_block_of_a_name_overwrites() {
    let (messages, enums) =
        ProtoParserCore::parse_proto("message A { string x = 1; }\nmessage B { }\nmessage A { bool y = 2; }")
            .unwrap();
    assert!(enums.is_empty());
    assert_eq!(messages.len(), 2);
    assert_eq!(messages[0].0, "A");
    assert_eq!(messages[0].1.fields.len(), 1);
    assert_eq!(messages[0].1.fields[0].original_name, "y");
    assert_eq!(messages[1].0, "B");
}

#[test]
fn nested_braces_one_level_deep() {
    let (messages, _) =
        ProtoParserCore::parse_proto("message A {\n  option { x }\n  string s = 1;\n}").unwrap();
    assert_eq!(messages.len(), 1);
    assert_eq!(messages[0].1.fields.len(), 1);
    let (deeper, _) = ProtoParserCore::parse_proto("message A { a { b { } } }").unwrap();
    assert!(deeper.is_empty());
}

#[test]
fn scalar_types_per_target() {
    let text = "message S {\n  uint32 a = 1;\n  uint64 b = 2;\n  float c = 3;\n  double d = 4;\n  bytes e = 5;\n}";
    assert_eq!(
        proto_to_swift(text),
        "struct S {\n    var a: UInt32\n    var b: UInt64\n    var c: Float\n    var d: Double\n    var e: Data\n}\n"
    );
    assert_eq!(
        proto_to_kotlin(text),
        "class S {\n    var a: Int? = null\n    var b: Long? = null\n    var c: Float? = null\n    var d: Double? = null\n    var e: ByteArray? = null\n}\n"
    );
    assert_eq!(
        proto_to_typescript(text),
        "export interface S {\n    a: number;\n    b: number;\n    c: number;\n    d: number;\n    e: Uint8Array;\n}\n"
    );
    assert_eq!(
        proto_to_dart(text),
        "class S {\n    int? a;\n    int? b;\n    double? c;\n    double? d;\n    List<int>? e;\n}\n"
    );
}

#[test]
fn field_names_become_camel_case() {
    let text = "message U { string first_name = 1; }";
    assert_eq!(proto_to(Target::TypeScript, text), "export interface U {\n    firstName: string;\n}\n");
}

#[test]
fn generators_take_a_model() {
    let m = ProtoMessage { fields: vec![], comment: None };
    assert_eq!(generate_class(Target::Swift, "Empty", &m), "struct Empty {\n}\n");
    let e = ProtoEnum {
        values: vec![ProtoEnumValue { name: "NEG".to_string(), value: -12, comment: Some("n".to_string()) }],
        comment: None,
    };
    assert_eq!(
        generate_enum(Target::TypeScript, "Sign", &e),
        "export enum Sign {\n    /** n */\n    NEG = -12,\n}\n"
    );
}

#[test]
fn naming_conversions() {
    assert_eq!(ProtoParserCore::to_camel_case("user_name_id"), "userNameId");
    assert_eq!(ProtoParserCore::to_camel_case("plain"), "plain");
    assert_eq!(ProtoParserCore::to_camel_case(""), "");
    assert_eq!(ProtoParserCore::to_pascal_case("user_name"), "UserName");
    assert_eq!(ProtoParserCore::to_pascal_case(""), "");
    assert_eq!(ProtoParserCore::to_snake_case("userNameId"), "user_name_id");
    assert_eq!(ProtoParserCore::to_snake_case("UserName"), "user_name");
    assert_eq!(ProtoParserCore::to_snake_case("HTTPCode"), "h_t_t_p_code");
}

#[test]
fn fractional_enum_value_fails() {
    let err = ProtoParserCore::parse_enum_values("A = 1.5;").unwrap_err();
    assert_eq!(err, "Invalid enum value: 1.5");
    let err = ProtoParserCore::parse_proto("enum E { A = 1.5; }").unwrap_err();
    assert_eq!(err, "Invalid enum value: 1.5");
    assert_eq!(
        proto_to_swift("enum E { A = 1e3; }"),
        "// Error parsing proto: Invalid enum value: 1e3"
    );
}

#[test]
fn empty_comments_are_absent() {
    let fields = ProtoParserCore::parse_message_fields("//\nstring a = 1; //   ").unwrap();
    assert_eq!(fields.len(), 1);
    assert!(fields[0].comment.is_none());
    let out = proto_to_dart("//\nmessage M {\n  //\n  string a = 1;\n}");
    assert_eq!(out, "class M {\n    String? a;\n}\n");
}

#[test]
fn block_comments_cannot_be_closed_early() {
    let text = "message M {\n  string a = 1; // ends */ here\n}";
    assert_eq!(
        proto_to_kotlin(text),
        "class M {\n    /** ends * / here */\n    var a: String? = null\n}\n"
    );
    assert_eq!(
        proto_to_swift(text),
        "struct M {\n    /// ends */ here\n    var a: String\n}\n"
    );
}

#[test]
fn empty_dart_enum_is_a_class() {
    assert_eq!(
        proto_to_dart("enum Nothing { }"),
        "class Nothing {\n    final int value;\n    const Nothing._(this.value);\n}\n"
    );
    assert_eq!(proto_to_typescript("enum Nothing { }"), "export enum Nothing {\n}\n");
}

#[test]
fn pascal_case_uses_the_whole_mapping() {
    assert_eq!(ProtoParserCore::to_pascal_case("ßa"), "SSa");
    assert_eq!(ProtoParserCore::to_camel_case("a_ßb"), "aSb");
}

#[test]
fn unicode_names_and_blanks() {
    let text = "message Пользователь {\n\u{a0}string имя = 1;\n}";
    assert_eq!(proto_to_swift(text), "struct Пользователь {\n    var имя: String\n}\n");
}
