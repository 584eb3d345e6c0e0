use vstd::prelude::*;

use crate::grammar::schema;
use crate::model::{opt_view, EnumView, FieldView, MessageView, ProtoEnum, ProtoMessage, ValueView};
use crate::naming::camel;
use crate::parser::ProtoParserCore;
use crate::text::{chars_of, int_text, nat_text, push_char};

verus! {

/// A language that type declarations are written in.
#[derive(Clone, Copy, PartialEq, Eq, Debug)]
pub enum Target {
    Swift,
    Kotlin,
    TypeScript,
    Dart,
}

pub open spec fn indent() -> Seq<char> {
    "    "@
}

pub open spec fn doc_open(t: Target) -> Seq<char> {
    match t {
        Target::Swift | Target::Dart => "/// "@,
        Target::Kotlin | Target::TypeScript => "/** "@,
    }
}

pub open spec fn doc_close(t: Target) -> Seq<char> {
    match t {
        Target::Swift | Target::Dart => "\n"@,
        Target::Kotlin | Target::TypeScript => " */\n"@,
    }
}

/// Text that cannot close a block comment: a `/` right after a `*` gets a space
/// before it.
pub open spec fn block_safe(s: Seq<char>) -> Seq<char>
    decreases s.len(),
{
    if s.len() == 0 {
        seq![]
    } else {
        let p = s.drop_last();
        if s.last() == '/' && p.len() > 0 && p.last() == '*' {
            block_safe(p) + seq![' ', '/']
        } else {
            block_safe(p).push(s.last())
        }
    }
}

/// Comment text as the target's comment syntax holds it.
pub open spec fn doc_body(t: Target, x: Seq<char>) -> Seq<char> {
    match t {
        Target::Swift | Target::Dart => x,
        Target::Kotlin | Target::TypeScript => block_safe(x),
    }
}

/// A documentation comment on a line of its own, or nothing where there is none.
pub open spec fn doc(t: Target, ind: Seq<char>, c: Option<Seq<char>>) -> Seq<char> {
    match c {
        Some(x) => ind + doc_open(t) + doc_body(t, x) + doc_close(t),
        None => seq![],
    }
}

/// The place of a schema scalar type in the type table, or -1 for another type.
pub open spec fn scalar_index(ty: Seq<char>) -> int {
    if ty == "string"@ {
        0
    } else if ty == "int32"@ {
        1
    } else if ty == "int64"@ {
        2
    } else if ty == "uint32"@ {
        3
    } else if ty == "uint64"@ {
        4
    } else if ty == "bool"@ {
        5
    } else if ty == "float"@ {
        6
    } else if ty == "double"@ {
        7
    } else if ty == "bytes"@ {
        8
    } else {
        -1
    }
}

/// The native type of each schema scalar type, by place in the type table.
pub open spec fn native_type(t: Target, k: int) -> Seq<char> {
    match t {
        Target::Swift => if k == 0 {
            "String"@
        } else if k == 1 {
            "Int32"@
        } else if k == 2 {
            "Int64"@
        } else if k == 3 {
            "UInt32"@
        } else if k == 4 {
            "UInt64"@
        } else if k == 5 {
            "Bool"@
        } else if k == 6 {
            "Float"@
        } else if k == 7 {
            "Double"@
        } else {
            "Data"@
        },
        Target::Kotlin => if k == 0 {
            "String"@
        } else if k == 1 || k == 3 {
            "Int"@
        } else if k == 2 || k == 4 {
            "Long"@
        } else if k == 5 {
            "Boolean"@
        } else if k == 6 {
            "Float"@
        } else if k == 7 {
            "Double"@
        } else {
            "ByteArray"@
        },
        Target::TypeScript => if k == 0 {
            "string"@
        } else if k == 5 {
            "boolean"@
        } else if k == 8 {
            "Uint8Array"@
        } else {
            "number"@
        },
        Target::Dart => if k == 0 {
            "String"@
        } else if k == 5 {
            "bool"@
        } else if k == 6 || k == 7 {
            "double"@
        } else if k == 8 {
            "List<int>"@
        } else {
            "int"@
        },
    }
}

/// A schema type in the target: a scalar mapped, any other name as written.
pub open spec fn base_type(t: Target, ty: Seq<char>) -> Seq<char> {
    let k = scalar_index(ty);
    if k >= 0 {
        native_type(t, k)
    } else {
        ty
    }
}

/// The target's list of `x`.
pub open spec fn list_of(t: Target, x: Seq<char>) -> Seq<char> {
    match t {
        Target::Swift => "["@ + x + "]"@,
        Target::TypeScript => x + "[]"@,
        Target::Kotlin | Target::Dart => "List<"@ + x + ">"@,
    }
}

pub open spec fn member_type(t: Target, f: FieldView) -> Seq<char> {
    if f.is_repeated {
        list_of(t, base_type(t, f.field_type))
    } else {
        base_type(t, f.field_type)
    }
}

/// The declaration of a field, its name in camel case.
pub open spec fn field_line(t: Target, f: FieldView) -> Seq<char> {
    let n = camel(f.name);
    let ty = member_type(t, f);
    match t {
        Target::Swift => indent() + "var "@ + n + ": "@ + ty + "\n"@,
        Target::Kotlin => indent() + "var "@ + n + ": "@ + ty + "? = null\n"@,
        Target::TypeScript => indent() + n + ": "@ + ty + ";\n"@,
        Target::Dart => indent() + ty + "? "@ + n + ";\n"@,
    }
}

#[verifier::opaque]
pub open spec fn field_text(t: Target, f: FieldView) -> Seq<char> {
    doc(t, indent(), f.comment) + field_line(t, f)
}

/// The members of a type, in order.
pub open spec fn fields_text(t: Target, fs: Seq<FieldView>) -> Seq<char>
    decreases fs.len(),
{
    if fs.len() == 0 {
        seq![]
    } else {
        fields_text(t, fs.drop_last()) + field_text(t, fs.last())
    }
}

/// The word that opens a type declaration.
pub open spec fn class_kw(t: Target) -> Seq<char> {
    match t {
        Target::Swift => "struct "@,
        Target::Kotlin => "class "@,
        Target::TypeScript => "export interface "@,
        Target::Dart => "class "@,
    }
}

/// The type declaration of a message.
pub open spec fn render_class(t: Target, name: Seq<char>, m: MessageView) -> Seq<char> {
    doc(t, seq![], m.comment) + class_kw(t) + name + " {\n"@ + fields_text(t, m.fields) + "}\n"@
}

/// The declaration of an enum constant with its value.
pub open spec fn value_line(t: Target, v: ValueView) -> Seq<char> {
    let num = int_text(v.value as int);
    match t {
        Target::Swift => indent() + "case "@ + v.name + " = "@ + num + "\n"@,
        Target::Kotlin | Target::Dart => indent() + v.name + "("@ + num + "),\n"@,
        Target::TypeScript => indent() + v.name + " = "@ + num + ",\n"@,
    }
}

#[verifier::opaque]
pub open spec fn value_text(t: Target, v: ValueView) -> Seq<char> {
    doc(t, indent(), v.comment) + value_line(t, v)
}

/// The constants of an enum, in order.
pub open spec fn values_text(t: Target, vs: Seq<ValueView>) -> Seq<char>
    decreases vs.len(),
{
    if vs.len() == 0 {
        seq![]
    } else {
        values_text(t, vs.drop_last()) + value_text(t, vs.last())
    }
}

/// The word that opens an enum declaration.
pub open spec fn enum_kw_text(t: Target) -> Seq<char> {
    match t {
        Target::Swift | Target::Dart => "enum "@,
        Target::Kotlin => "enum class "@,
        Target::TypeScript => "export enum "@,
    }
}

pub open spec fn enum_head_end(t: Target) -> Seq<char> {
    match t {
        Target::Swift => ": Int32 {\n"@,
        Target::Kotlin => "(val value: Int) {\n"@,
        Target::TypeScript | Target::Dart => " {\n"@,
    }
}

pub open spec fn enum_end(t: Target, name: Seq<char>) -> Seq<char> {
    match t {
        Target::Dart => "    ;\n\n    final int value;\n    const "@ + name + "(this.value);\n}\n"@,
        _ => "}\n"@,
    }
}

/// An enum without constants in Dart, which has no such enum: a class of the same
/// name that holds a value.
pub open spec fn dart_empty_enum(name: Seq<char>) -> Seq<char> {
    "class "@ + name + " {\n    final int value;\n    const "@ + name + "._(this.value);\n}\n"@
}

/// The declaration of an enum.
pub open spec fn render_enum(t: Target, name: Seq<char>, e: EnumView) -> Seq<char> {
    if t is Dart && e.values.len() == 0 {
        doc(t, seq![], e.comment) + dart_empty_enum(name)
    } else {
        doc(t, seq![], e.comment) + enum_kw_text(t) + name + enum_head_end(t) + values_text(
            t,
            e.values,
        ) + enum_end(t, name)
    }
}

pub open spec fn error_prefix() -> Seq<char> {
    "// Error parsing proto: "@
}

pub open spec fn not_found() -> Seq<char> {
    "// No valid proto message or enum found"@
}

/// What a conversion of schema text writes: the first message, else the first enum,
/// else a note that there is none; or the parse error.
pub open spec fn convert(t: Target, text: Seq<char>) -> Seq<char> {
    match schema(text) {
        Err(e) => error_prefix() + e,
        Ok((m, en)) => if m.len() > 0 {
            render_class(t, m[0].0, m[0].1)
        } else if en.len() > 0 {
            render_enum(t, en[0].0, en[0].1)
        } else {
            not_found()
        },
    }
}

fn same_text(a: &String, b: &str) -> (r: bool)
    ensures
        r == (a@ == b@),
{
    let owned = b.to_owned();
    a.eq(&owned)
}

fn scalar_index_of(ty: &String) -> (r: i8)
    ensures
        r as int == scalar_index(ty@),
{
    if same_text(ty, "string") {
        0
    } else if same_text(ty, "int32") {
        1
    } else if same_text(ty, "int64") {
        2
    } else if same_text(ty, "uint32") {
        3
    } else if same_text(ty, "uint64") {
        4
    } else if same_text(ty, "bool") {
        5
    } else if same_text(ty, "float") {
        6
    } else if same_text(ty, "double") {
        7
    } else if same_text(ty, "bytes") {
        8
    } else {
        -1
    }
}

fn native_type_of(t: Target, k: i8) -> (r: &'static str)
    ensures
        r@ == native_type(t, k as int),
{
    match t {
        Target::Swift => if k == 0 {
            "String"
        } else if k == 1 {
            "Int32"
        } else if k == 2 {
            "Int64"
        } else if k == 3 {
            "UInt32"
        } else if k == 4 {
            "UInt64"
        } else if k == 5 {
            "Bool"
        } else if k == 6 {
            "Float"
        } else if k == 7 {
            "Double"
        } else {
            "Data"
        },
        Target::Kotlin => if k == 0 {
            "String"
        } else if k == 1 || k == 3 {
            "Int"
        } else if k == 2 || k == 4 {
            "Long"
        } else if k == 5 {
            "Boolean"
        } else if k == 6 {
            "Float"
        } else if k == 7 {
            "Double"
        } else {
            "ByteArray"
        },
        Target::TypeScript => if k == 0 {
            "string"
        } else if k == 5 {
            "boolean"
        } else if k == 8 {
            "Uint8Array"
        } else {
            "number"
        },
        Target::Dart => if k == 0 {
            "String"
        } else if k == 5 {
            "bool"
        } else if k == 6 || k == 7 {
            "double"
        } else if k == 8 {
            "List<int>"
        } else {
            "int"
        },
    }
}

/// Writes `x` after `out` so that it cannot close a block comment.
fn push_block_safe(out: &mut String, x: &str)
    ensures
        final(out)@ == old(out)@ + block_safe(x@),
{
    let xs = chars_of(x);
    let ghost o = out@;
    let mut i: usize = 0;
    while i < xs.len()
        invariant
            i <= xs.len(),
            xs@ == x@,
            o == old(out)@,
            out@ == o + block_safe(xs@.take(i as int)),
        decreases xs.len() - i,
    {
        let ghost t = xs@.take(i + 1);
        assert(t.drop_last() =~= xs@.take(i as int));
        let c = xs[i];
        if c == '/' && i > 0 && xs[i - 1] == '*' {
            push_char(out, ' ');
            push_char(out, '/');
        } else {
            push_char(out, c);
        }
        assert(out@ =~= o + block_safe(t));
        i = i + 1;
    }
    assert(xs@.take(xs.len() as int) =~= xs@);
}

fn push_doc(out: &mut String, t: Target, ind: &str, c: &Option<String>)
    ensures
        final(out)@ == old(out)@ + doc(t, ind@, opt_view(*c)),
{
    match c {
        Some(x) => {
            out.append(ind);
            match t {
                Target::Swift | Target::Dart => out.append("/// "),
                Target::Kotlin | Target::TypeScript => out.append("/** "),
            }
            match t {
                Target::Swift | Target::Dart => out.append(x.as_str()),
                Target::Kotlin | Target::TypeScript => push_block_safe(out, x.as_str()),
            }
            match t {
                Target::Swift | Target::Dart => out.append("\n"),
                Target::Kotlin | Target::TypeScript => out.append(" */\n"),
            }
        },
        None => {
            assert(out@ =~= out@ + Seq::<char>::empty());
        },
    }
}

fn push_base_type(out: &mut String, t: Target, ty: &String)
    ensures
        final(out)@ == old(out)@ + base_type(t, ty@),
{
    let k = scalar_index_of(ty);
    if k >= 0 {
        out.append(native_type_of(t, k));
    } else {
        out.append(ty.as_str());
    }
}

fn push_member_type(out: &mut String, t: Target, f: &crate::model::ProtoField)
    ensures
        final(out)@ == old(out)@ + member_type(t, f@),
{
    if f.is_repeated {
        let ghost o = out@;
        match t {
            Target::Swift => {
                out.append("[");
                push_base_type(out, t, &f.field_type);
                out.append("]");
                assert(out@ =~= o + ("["@ + base_type(t, f.field_type@) + "]"@));
            },
            Target::TypeScript => {
                push_base_type(out, t, &f.field_type);
                out.append("[]");
                assert(out@ =~= o + (base_type(t, f.field_type@) + "[]"@));
            },
            Target::Kotlin | Target::Dart => {
                out.append("List<");
                push_base_type(out, t, &f.field_type);
                out.append(">");
                assert(out@ =~= o + ("List<"@ + base_type(t, f.field_type@) + ">"@));
            },
        }
    } else {
        push_base_type(out, t, &f.field_type);
    }
}

fn push_field(out: &mut String, t: Target, f: &crate::model::ProtoField)
    ensures
        final(out)@ == old(out)@ + field_text(t, f@),
{
    let ghost o = out@;
    push_doc(out, t, "    ", &f.comment);
    let ghost o2 = out@;
    let n = ProtoParserCore::to_camel_case(f.original_name.as_str());
    let ghost ty = member_type(t, f@);
    match t {
        Target::Swift => {
            out.append("    var ");
            out.append(n.as_str());
            out.append(": ");
            push_member_type(out, t, f);
            out.append("\n");
            assert(out@ =~= o2 + (indent() + "var "@ + n@ + ": "@ + ty + "\n"@)) by {
                reveal_strlit("    var ");
                reveal_strlit("    ");
                reveal_strlit("var ");
            }
        },
        Target::Kotlin => {
            out.append("    var ");
            out.append(n.as_str());
            out.append(": ");
            push_member_type(out, t, f);
            out.append("? = null\n");
            assert(out@ =~= o2 + (indent() + "var "@ + n@ + ": "@ + ty + "? = null\n"@)) by {
                reveal_strlit("    var ");
                reveal_strlit("    ");
                reveal_strlit("var ");
            }
        },
        Target::TypeScript => {
            out.append("    ");
            out.append(n.as_str());
            out.append(": ");
            push_member_type(out, t, f);
            out.append(";\n");
            assert(out@ =~= o2 + (indent() + n@ + ": "@ + ty + ";\n"@));
        },
        Target::Dart => {
            out.append("    ");
            push_member_type(out, t, f);
            out.append("? ");
            out.append(n.as_str());
            out.append(";\n");
            assert(out@ =~= o2 + (indent() + ty + "? "@ + n@ + ";\n"@));
        },
    }
    reveal(field_text);
    assert(out@ =~= o + field_text(t, f@));
}

/// Writes the digits of `n` after `out`.
fn push_nat(out: &mut String, n: u32)
    ensures
        final(out)@ == old(out)@ + nat_text(n as nat),
    decreases n,
{
    if n >= 10 {
        push_nat(out, n / 10);
    }
    let d = n % 10;
    let c = if d == 0 {
        '0'
    } else if d == 1 {
        '1'
    } else if d == 2 {
        '2'
    } else if d == 3 {
        '3'
    } else if d == 4 {
        '4'
    } else if d == 5 {
        '5'
    } else if d == 6 {
        '6'
    } else if d == 7 {
        '7'
    } else if d == 8 {
        '8'
    } else {
        '9'
    };
    let ghost o = out@;
    push_char(out, c);
    if n < 10 {
        assert(out@ =~= old(out)@ + nat_text(n as nat));
    } else {
        assert(out@ =~= old(out)@ + nat_text(n as nat));
    }
}

/// Writes the decimal text of `v` after `out`.
fn push_int(out: &mut String, v: i32)
    ensures
        final(out)@ == old(out)@ + int_text(v as int),
{
    if v < 0 {
        push_char(out, '-');
        let ghost o = out@;
        let n: u32 = (-(v as i64)) as u32;
        push_nat(out, n);
        assert(out@ =~= old(out)@ + int_text(v as int));
    } else {
        push_nat(out, v as u32);
    }
}

fn push_value(out: &mut String, t: Target, v: &crate::model::ProtoEnumValue)
    ensures
        final(out)@ == old(out)@ + value_text(t, v@),
{
    let ghost o = out@;
    push_doc(out, t, "    ", &v.comment);
    let ghost o2 = out@;
    let ghost num = int_text(v.value as int);
    match t {
        Target::Swift => {
            out.append("    case ");
            out.append(v.name.as_str());
            out.append(" = ");
            push_int(out, v.value);
            out.append("\n");
            assert(out@ =~= o2 + (indent() + "case "@ + v.name@ + " = "@ + num + "\n"@)) by {
                reveal_strlit("    case ");
                reveal_strlit("    ");
                reveal_strlit("case ");
            }
        },
        Target::Kotlin | Target::Dart => {
            out.append("    ");
            out.append(v.name.as_str());
            out.append("(");
            push_int(out, v.value);
            out.append("),\n");
            assert(out@ =~= o2 + (indent() + v.name@ + "("@ + num + "),\n"@));
        },
        Target::TypeScript => {
            out.append("    ");
            out.append(v.name.as_str());
            out.append(" = ");
            push_int(out, v.value);
            out.append(",\n");
            assert(out@ =~= o2 + (indent() + v.name@ + " = "@ + num + ",\n"@));
        },
    }
    reveal(value_text);
    assert(out@ =~= o + value_text(t, v@));
}

/// The type declaration of a message in language `t`: its comment, then each field
/// in declaration order with its own comment.
pub fn generate_class(t: Target, name: &str, message: &ProtoMessage) -> (r: String)
    ensures
        r@ == render_class(t, name@, message@),
{
    let mut out = String::new();
    push_doc(&mut out, t, "", &message.comment);
    proof {
        reveal_strlit("");
        assert(""@ =~= Seq::<char>::empty());
    }
    match t {
        Target::Swift => out.append("struct "),
        Target::Kotlin => out.append("class "),
        Target::TypeScript => out.append("export interface "),
        Target::Dart => out.append("class "),
    }
    out.append(name);
    out.append(" {\n");
    let ghost head = out@;
    let ghost fs = message@.fields;
    let mut k: usize = 0;
    while k < message.fields.len()
        invariant
            k <= message.fields.len(),
            fs == message@.fields,
            out@ == head + fields_text(t, fs.take(k as int)),
        decreases message.fields.len() - k,
    {
        push_field(&mut out, t, &message.fields[k]);
        assert(fs.take(k + 1).drop_last() =~= fs.take(k as int));
        k = k + 1;
    }
    assert(fs.take(fs.len() as int) =~= fs);
    out.append("}\n");
    assert(out@ =~= render_class(t, name@, message@));
    out
}

/// The enum declaration of an enum in language `t`: its comment, then each constant
/// with its value, in declaration order.
pub fn generate_enum(t: Target, name: &str, proto_enum: &ProtoEnum) -> (r: String)
    ensures
        r@ == render_enum(t, name@, proto_enum@),
{
    let mut out = String::new();
    push_doc(&mut out, t, "", &proto_enum.comment);
    proof {
        reveal_strlit("");
        assert(""@ =~= Seq::<char>::empty());
    }
    if matches!(t, Target::Dart) && proto_enum.values.len() == 0 {
        let ghost d = out@;
        out.append("class ");
        out.append(name);
        out.append(" {\n    final int value;\n    const ");
        out.append(name);
        out.append("._(this.value);\n}\n");
        assert(out@ =~= d + dart_empty_enum(name@));
        return out;
    }
    match t {
        Target::Swift | Target::Dart => out.append("enum "),
        Target::Kotlin => out.append("enum class "),
        Target::TypeScript => out.append("export enum "),
    }
    out.append(name);
    match t {
        Target::Swift => out.append(": Int32 {\n"),
        Target::Kotlin => out.append("(val value: Int) {\n"),
        Target::TypeScript | Target::Dart => out.append(" {\n"),
    }
    let ghost head = out@;
    let ghost vs = proto_enum@.values;
    let mut k: usize = 0;
    while k < proto_enum.values.len()
        invariant
            k <= proto_enum.values.len(),
            vs == proto_enum@.values,
            out@ == head + values_text(t, vs.take(k as int)),
        decreases proto_enum.values.len() - k,
    {
        push_value(&mut out, t, &proto_enum.values[k]);
        assert(vs.take(k + 1).drop_last() =~= vs.take(k as int));
        k = k + 1;
    }
    assert(vs.take(vs.len() as int) =~= vs);
    let ghost body = out@;
    match t {
        Target::Dart => {
            out.append("    ;\n\n    final int value;\n    const ");
            out.append(name);
            out.append("(this.value);\n}\n");
        },
        _ => out.append("}\n"),
    }
    assert(out@ =~= body + enum_end(t, name@));
    assert(out@ =~= render_enum(t, name@, proto_enum@));
    out
}

/// Converts schema text into a declaration in language `t`: of its first message,
/// else of its first enum, else a note that it holds neither; or the parse error.
pub fn proto_to(t: Target, proto_content: &str) -> (r: String)
    ensures
        r@ == convert(t, proto_content@),
{
    match ProtoParserCore::parse_proto(proto_content) {
        Ok((messages, enums)) => {
            if messages.len() > 0 {
                generate_class(t, messages[0].0.as_str(), &messages[0].1)
            } else if enums.len() > 0 {
                generate_enum(t, enums[0].0.as_str(), &enums[0].1)
            } else {
                "// No valid proto message or enum found".to_owned()
            }
        },
        Err(e) => {
            let mut out = "// Error parsing proto: ".to_owned();
            out.append(e.as_str());
            out
        },
    }
}

/// Schema text as a Swift declaration.
pub fn proto_to_swift(proto_content: &str) -> (r: String)
    ensures
        r@ == convert(Target::Swift, proto_content@),
{
    proto_to(Target::Swift, proto_content)
}

/// Schema text as a Kotlin declaration.
pub fn proto_to_kotlin(proto_content: &str) -> (r: String)
    ensures
        r@ == convert(Target::Kotlin, proto_content@),
{
    proto_to(Target::Kotlin, proto_content)
}

/// Schema text as a TypeScript declaration.
pub fn proto_to_typescript(proto_content: &str) -> (r: String)
    ensures
        r@ == convert(Target::TypeScript, proto_content@),
{
    proto_to(Target::TypeScript, proto_content)
}

/// Schema text as a Dart declaration.
pub fn proto_to_dart(proto_content: &str) -> (r: String)
    ensures
        r@ == convert(Target::Dart, proto_content@),
{
    proto_to(Target::Dart, proto_content)
}

} // verus!
