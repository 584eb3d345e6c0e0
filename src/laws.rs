use vstd::prelude::*;

use crate::grammar::{
    body_fields, build_enums, build_messages, close_decl, decl_at, decl_comment, enum_blocks,
    fields_of_body, invalid_value_message, line_decls, line_fields, line_items, line_values,
    message_blocks, plain_decl, repeated_kw, schema, trailing_comment, value_at, values_of_body,
    Block, FieldDecl,
};
use crate::generate::{
    class_kw, convert, doc, doc_body, doc_close, doc_open, enum_end, enum_head_end, enum_kw_text,
    error_prefix, field_text, fields_text, not_found, render_class, render_enum, value_text,
    values_text, Target,
};
use crate::model::{key_pos, EnumView, FieldView, MessageView, ValueView};
use crate::text::{
    comment_text, find_char, i32_of, in_class, is_digit, is_space, is_word, run_end, slashes_at,
    trim, trim_end, trim_start, CharClass,
};

verus! {

/// A non-empty run of letters, digits and underscores.
pub open spec fn word_text(x: Seq<char>) -> bool {
    x.len() > 0 && forall|m: int| 0 <= m < x.len() ==> is_word(#[trigger] x[m])
}

/// A non-empty run of decimal digits.
pub open spec fn digit_text(x: Seq<char>) -> bool {
    x.len() > 0 && forall|m: int| 0 <= m < x.len() ==> is_digit(#[trigger] x[m])
}

/// Non-empty text of one line, with no blank at either end.
pub open spec fn comment_body(x: Seq<char>) -> bool {
    x.len() > 0 && (forall|m: int| 0 <= m < x.len() ==> #[trigger] x[m] != '\n') && (x.len() == 0 || (
    !is_space(x[0]) && !is_space(x.last())))
}

/// The field line `<type> <name> = <tag>;`.
pub open spec fn field_decl_text(t: Seq<char>, n: Seq<char>, d: Seq<char>) -> Seq<char> {
    t + seq![' '] + n + seq![' ', '=', ' '] + d + seq![';']
}

proof fn lemma_run_end(s: Seq<char>, i: int, j: int, k: CharClass)
    requires
        0 <= i <= j <= s.len(),
        forall|m: int| i <= m < j ==> in_class(k, #[trigger] s[m]),
        j == s.len() || !in_class(k, s[j]),
    ensures
        run_end(s, i, k) == j,
    decreases j - i,
{
    if i < j {
        lemma_run_end(s, i + 1, j, k);
    }
}

proof fn lemma_find_char(s: Seq<char>, i: int, j: int, c: char)
    requires
        0 <= i <= j <= s.len(),
        forall|m: int| i <= m < j ==> #[trigger] s[m] != c,
        j == s.len() || s[j] == c,
    ensures
        find_char(s, i, c) == j,
    decreases j - i,
{
    if i < j {
        lemma_find_char(s, i + 1, j, c);
    }
}

proof fn lemma_trim_after_space(x: Seq<char>)
    requires
        comment_body(x),
    ensures
        trim(seq![' '] + x) == x,
{
    assert((seq![' '] + x).drop_first() =~= x);
    assert(trim_start(seq![' '] + x) == trim_start(x));
    assert(trim_start(x) == x);
    assert(trim_end(x) == x);
}

/// A field line at `i` reads as its type and its name, and ends after its `;`.
#[verifier::rlimit(60)]
proof fn lemma_plain_decl(s: Seq<char>, i: int, t: Seq<char>, n: Seq<char>, d: Seq<char>)
    requires
        word_text(t),
        word_text(n),
        digit_text(d),
        0 <= i,
        i + field_decl_text(t, n, d).len() <= s.len(),
        s.subrange(i, i + field_decl_text(t, n, d).len()) == field_decl_text(t, n, d),
    ensures
        plain_decl(s, i) == Some((t, n, i + field_decl_text(t, n, d).len())),
{
    let x = field_decl_text(t, n, d);
    let a = i + t.len();
    let b = a + 1;
    let c = b + n.len();
    let dd = c + 1;
    let e = c + 3;
    let f = e + d.len();
    assert(x.len() == t.len() + n.len() + d.len() + 5);
    assert forall|m: int| i <= m < i + x.len() implies #[trigger] s[m] == x[m - i] by {
        assert(s[m] == s.subrange(i, i + x.len())[m - i]);
    }
    assert forall|m: int| i <= m < a implies is_word(#[trigger] s[m]) by {
        assert(s[m] == x[m - i]);
        assert(x[m - i] == t[m - i]);
    }
    assert(s[a] == ' ');
    lemma_run_end(s, i, a, CharClass::Word);
    assert(s[b] == n[0]);
    lemma_run_end(s, a, b, CharClass::Space);
    assert forall|m: int| b <= m < c implies is_word(#[trigger] s[m]) by {
        assert(s[m] == x[m - i]);
        assert(x[m - i] == n[m - b]);
    }
    assert(s[c] == ' ');
    lemma_run_end(s, b, c, CharClass::Word);
    assert(s[dd] == '=');
    lemma_run_end(s, c, dd, CharClass::Space);
    assert(s[dd + 1] == ' ');
    assert(s[e] == d[0]);
    lemma_run_end(s, dd + 1, e, CharClass::Space);
    assert forall|m: int| e <= m < f implies is_digit(#[trigger] s[m]) by {
        assert(s[m] == x[m - i]);
        assert(x[m - i] == d[m - e]);
    }
    assert(s[f] == ';');
    lemma_run_end(s, e, f, CharClass::Digit);
    lemma_run_end(s, f, f, CharClass::Space);
    assert(close_decl(s, f) == Some(f + 1));
    assert(s.subrange(i, a) =~= t);
    assert(s.subrange(b, c) =~= n);
    assert(f + 1 == i + x.len());
}

proof fn lemma_decl_chars(t: Seq<char>, n: Seq<char>, d: Seq<char>)
    requires
        word_text(t),
        word_text(n),
        digit_text(d),
    ensures
        forall|m: int|
            0 <= m < field_decl_text(t, n, d).len() ==> #[trigger] field_decl_text(t, n, d)[m]
                != '\n',
        is_word(field_decl_text(t, n, d)[0]),
{
    let x = field_decl_text(t, n, d);
    assert forall|m: int| 0 <= m < x.len() implies #[trigger] x[m] != '\n' by {
        assert(x[m] == ' ' || x[m] == '=' || x[m] == ';' || is_word(x[m]) || is_digit(x[m]));
    }
    assert(x[0] == t[0]);
}

/// A body of one line reads as that line.
proof fn lemma_single_line(s: Seq<char>)
    requires
        s.len() > 0,
        forall|m: int| 0 <= m < s.len() ==> #[trigger] s[m] != '\n',
    ensures
        fields_of_body(s) == line_fields(s, None),
{
    lemma_find_char(s, 0, s.len() as int, '\n');
    assert(s.subrange(0, s.len() as int) =~= s);
}

/// A line that holds one declaration, up to its end.
proof fn lemma_one_decl_line(s: Seq<char>, dcl: FieldDecl)
    requires
        s.len() > 0,
        !is_space(s[0]),
        s[0] != '/',
        decl_at(s, 0) == Some((dcl, s.len() as int)),
    ensures
        line_decls(s, 0) == (seq![dcl], s.len() as int),
{
    lemma_run_end(s, 0, 0, CharClass::Space);
    assert(line_decls(s, s.len() as int) == (Seq::<FieldDecl>::empty(), s.len() as int));
    assert(seq![dcl] + Seq::<FieldDecl>::empty() =~= seq![dcl]);
}

/// A field line with neither modifier nor comment reads as one field that is not
/// repeated and has no comment.
pub proof fn plain_field_line(t: Seq<char>, n: Seq<char>, d: Seq<char>)
    requires
        word_text(t),
        word_text(n),
        digit_text(d),
    ensures
        fields_of_body(field_decl_text(t, n, d)) == seq![
            FieldView { name: n, field_type: t, is_repeated: false, comment: None },
        ],
{
    let s = field_decl_text(t, n, d);
    assert(s.subrange(0, s.len() as int) =~= s);
    lemma_plain_decl(s, 0, t, n, d);
    lemma_decl_chars(t, n, d);
    lemma_single_line(s);
    let dcl = FieldDecl { field_type: t, name: n, repeated: false };
    lemma_one_decl_line(s, dcl);
    assert(line_fields(s, None) =~= seq![
        FieldView { name: n, field_type: t, is_repeated: false, comment: None },
    ]);
}

/// Read without the modifier, a line that starts with `repeated` takes `repeated` for
/// the type and the type for the name, and then finds the name where `=` should be.
proof fn lemma_not_plain(s: Seq<char>, t: Seq<char>, n: Seq<char>, d: Seq<char>)
    requires
        word_text(t),
        word_text(n),
        digit_text(d),
        s == repeated_kw() + seq![' '] + field_decl_text(t, n, d),
    ensures
        plain_decl(s, 0) is None,
{
    let x = field_decl_text(t, n, d);
    let c = 9 + t.len() as int;
    assert forall|m: int| 0 <= m < 8 implies is_word(#[trigger] s[m]) by {
        assert(s[m] == repeated_kw()[m]);
    }
    assert(s[8] == ' ');
    lemma_run_end(s, 0, 8, CharClass::Word);
    assert(s[9] == t[0]);
    lemma_run_end(s, 8, 9, CharClass::Space);
    assert forall|m: int| 9 <= m < c implies is_word(#[trigger] s[m]) by {
        assert(s[m] == x[m - 9]);
        assert(x[m - 9] == t[m - 9]);
    }
    assert(s[c] == ' ');
    lemma_run_end(s, 9, c, CharClass::Word);
    assert(s[c + 1] == n[0]);
    lemma_run_end(s, c, c + 1, CharClass::Space);
}

/// The `repeated` form of a field line reads as one repeated declaration.
proof fn lemma_repeated_decl(s: Seq<char>, t: Seq<char>, n: Seq<char>, d: Seq<char>)
    requires
        word_text(t),
        word_text(n),
        digit_text(d),
        s == repeated_kw() + seq![' '] + field_decl_text(t, n, d),
    ensures
        decl_at(s, 0) == Some(
            (FieldDecl { field_type: t, name: n, repeated: true }, s.len() as int),
        ),
{
    let x = field_decl_text(t, n, d);
    assert(s.subrange(9, s.len() as int) =~= x);
    lemma_plain_decl(s, 9, t, n, d);
    lemma_not_plain(s, t, n, d);
    assert(s.subrange(0, 8) =~= repeated_kw());
    assert(s[8] == ' ' && s[9] == t[0]);
    lemma_run_end(s, 8, 9, CharClass::Space);
}

proof fn lemma_repeated_chars(s: Seq<char>, t: Seq<char>, n: Seq<char>, d: Seq<char>)
    requires
        word_text(t),
        word_text(n),
        digit_text(d),
        s == repeated_kw() + seq![' '] + field_decl_text(t, n, d),
    ensures
        forall|m: int| 0 <= m < s.len() ==> #[trigger] s[m] != '\n',
        s[0] == 'r',
{
    let x = field_decl_text(t, n, d);
    lemma_decl_chars(t, n, d);
    assert forall|m: int| 0 <= m < s.len() implies #[trigger] s[m] != '\n' by {
        if m >= 9 {
            assert(s[m] == x[m - 9]);
        } else {
            assert(s[m] == repeated_kw()[m] || s[m] == ' ');
        }
    }
}

/// `repeated` before a field line marks the field repeated.
pub proof fn repeated_field_line(t: Seq<char>, n: Seq<char>, d: Seq<char>)
    requires
        word_text(t),
        word_text(n),
        digit_text(d),
    ensures
        fields_of_body(repeated_kw() + seq![' '] + field_decl_text(t, n, d)) == seq![
            FieldView { name: n, field_type: t, is_repeated: true, comment: None },
        ],
{
    let s = repeated_kw() + seq![' '] + field_decl_text(t, n, d);
    let dcl = FieldDecl { field_type: t, name: n, repeated: true };
    lemma_repeated_decl(s, t, n, d);
    lemma_repeated_chars(s, t, n, d);
    lemma_single_line(s);
    lemma_one_decl_line(s, dcl);
    assert(line_fields(s, None) =~= seq![
        FieldView { name: n, field_type: t, is_repeated: true, comment: None },
    ]);
}

/// A `// X` line right above a field line that ends in `// Y` gives the field the
/// comment `X Y`.
#[verifier::rlimit(60)]
pub proof fn joined_field_comment(
    x: Seq<char>,
    y: Seq<char>,
    t: Seq<char>,
    n: Seq<char>,
    d: Seq<char>,
)
    requires
        comment_body(x),
        comment_body(y),
        word_text(t),
        word_text(n),
        digit_text(d),
    ensures
        fields_of_body(
            seq!['/', '/', ' '] + x + seq!['\n'] + field_decl_text(t, n, d) + seq![' ', '/', '/', ' ']
                + y,
        ) == seq![
            FieldView {
                name: n,
                field_type: t,
                is_repeated: false,
                comment: Some(x + seq![' '] + y),
            },
        ],
{
    let first = seq!['/', '/', ' '] + x;
    let decl = field_decl_text(t, n, d);
    let second = decl + seq![' ', '/', '/', ' '] + y;
    let s = first + seq!['\n'] + second;
    assert(s =~= seq!['/', '/', ' '] + x + seq!['\n'] + decl + seq![' ', '/', '/', ' '] + y);
    let e = first.len() as int;
    // The first line is the comment line.
    assert forall|m: int| 0 <= m < e implies #[trigger] s[m] != '\n' by {
        assert(s[m] == first[m]);
        if m >= 3 {
            assert(first[m] == x[m - 3]);
        }
    }
    lemma_find_char(s, 0, e, '\n');
    assert(s.subrange(0, e) =~= first);
    lemma_run_end(first, 0, 0, CharClass::Space);
    assert(slashes_at(first, 0));
    assert(line_decls(first, 0).0 =~= Seq::<FieldDecl>::empty());
    assert(line_fields(first, None) =~= Seq::<FieldView>::empty());
    assert(first.subrange(2, first.len() as int) =~= seq![' '] + x);
    lemma_trim_after_space(x);
    assert(comment_text(first) == Some(x));
    // The second line is the field with its trailing comment.
    let l = decl.len() as int;
    assert forall|m: int| 0 <= m < second.len() implies #[trigger] second[m] != '\n' by {
        if m < l {
            assert(second[m] == decl[m]);
            assert(decl[m] == ' ' || decl[m] == '=' || decl[m] == ';' || is_word(decl[m])
                || is_digit(decl[m]));
        } else if m >= l + 4 {
            assert(second[m] == y[m - l - 4]);
        }
    }
    assert forall|m: int| e + 1 <= m < s.len() implies #[trigger] s[m] != '\n' by {
        assert(s[m] == second[m - e - 1]);
    }
    lemma_find_char(s, e + 1, s.len() as int, '\n');
    assert(s.subrange(e + 1, s.len() as int) =~= second);
    assert(second.subrange(0, l) =~= decl);
    lemma_plain_decl(second, 0, t, n, d);
    assert(second[0] == t[0]);
    lemma_run_end(second, 0, 0, CharClass::Space);
    assert(!slashes_at(second, 0));
    assert(second[l] == ' ');
    assert(second[l + 1] == '/');
    lemma_run_end(second, l, l + 1, CharClass::Space);
    assert(slashes_at(second, l + 1));
    assert(line_decls(second, l).0 =~= Seq::<FieldDecl>::empty());
    assert(line_decls(second, 0).1 == l + 1);
    assert(second.subrange(l + 3, second.len() as int) =~= seq![' '] + y);
    lemma_trim_after_space(y);
    assert(trailing_comment(second, l + 1) == Some(y));
    assert(decl_comment(0, 1, Some(x), Some(y)) == Some(x + seq![' '] + y));
    assert(line_fields(second, Some(x)) =~= seq![
        FieldView {
            name: n,
            field_type: t,
            is_repeated: false,
            comment: Some(x + seq![' '] + y),
        },
    ]);
    assert(body_fields(s, e + 1, Some(x)) == line_fields(second, Some(x)));
    assert(body_fields(s, 0, None) == line_fields(first, None) + body_fields(s, e + 1, Some(x)));
    assert(Seq::<FieldView>::empty() + line_fields(second, Some(x)) =~= line_fields(
        second,
        Some(x),
    ));
}

/// A value line whose literal is no 32-bit integer fails the enum body.
pub proof fn non_numeric_value_fails(n: Seq<char>, l: Seq<char>)
    requires
        word_text(n),
        l.len() > 0,
        forall|m: int| 0 <= m < l.len() ==> in_class(CharClass::Literal, #[trigger] l[m]),
        i32_of(l) is None,
    ensures
        values_of_body(n + seq![' ', '=', ' '] + l + seq![';']) == Err::<Seq<ValueView>, Seq<char>>(
            invalid_value_message(l),
        ),
{
    let s = n + seq![' ', '=', ' '] + l + seq![';'];
    let a = n.len() as int;
    let e = a + 3;
    let f = e + l.len();
    assert forall|m: int| 0 <= m < a implies is_word(#[trigger] s[m]) by {
        assert(s[m] == n[m]);
    }
    assert(s[a] == ' ');
    lemma_run_end(s, 0, a, CharClass::Word);
    assert(s[a + 1] == '=');
    lemma_run_end(s, a, a + 1, CharClass::Space);
    assert(s[e] == l[0]);
    lemma_run_end(s, a + 2, e, CharClass::Space);
    assert forall|m: int| e <= m < f implies in_class(CharClass::Literal, #[trigger] s[m]) by {
        assert(s[m] == l[m - e]);
    }
    assert(s[f] == ';');
    lemma_run_end(s, e, f, CharClass::Literal);
    lemma_run_end(s, f, f, CharClass::Space);
    assert(s.subrange(0, a) =~= n);
    assert(s.subrange(e, f) =~= l);
    assert(value_at(s, 0) == Some((n, l, f + 1)));
    assert(s[0] == n[0]);
    lemma_run_end(s, 0, 0, CharClass::Space);
    assert(line_items(s, f + 1) == (Seq::<(Seq<char>, Seq<char>)>::empty(), f + 1));
    assert(seq![(n, l)] + Seq::<(Seq<char>, Seq<char>)>::empty() =~= seq![(n, l)]);
    assert(line_items(s, 0).0 == seq![(n, l)]);
    assert(line_values(s, None) == Err::<Seq<ValueView>, Seq<char>>(invalid_value_message(l)));
    assert forall|m: int| 0 <= m < s.len() implies #[trigger] s[m] != '\n' by {
        if m < a {
            assert(s[m] == n[m]);
        } else if e <= m < f {
            assert(s[m] == l[m - e]);
        }
    }
    lemma_find_char(s, 0, s.len() as int, '\n');
    assert(s.subrange(0, s.len() as int) =~= s);
}

proof fn lemma_enum_error(bs: Seq<Block>, j: int)
    requires
        0 <= j < bs.len(),
        values_of_body(bs[j].body) is Err,
    ensures
        build_enums(bs) is Err,
    decreases bs.len(),
{
    if j < bs.len() - 1 {
        let p = bs.drop_last();
        assert(p[j] == bs[j]);
        lemma_enum_error(p, j);
    }
}

/// An enum block with a bad value fails the whole schema text.
pub proof fn bad_enum_fails_schema(text: Seq<char>, j: int)
    requires
        0 <= j < enum_blocks(text).len(),
        values_of_body(enum_blocks(text)[j].body) is Err,
    ensures
        schema(text) is Err,
{
    lemma_enum_error(enum_blocks(text), j);
}

/// Where the schema text fails to parse, every target writes the parse error.
pub proof fn parse_error_is_reported(text: Seq<char>, t: Target)
    requires
        schema(text) is Err,
    ensures
        convert(t, text) == error_prefix() + schema(text)->Err_0,
        convert(t, text).subrange(0, error_prefix().len() as int) == error_prefix(),
{
    assert((error_prefix() + schema(text)->Err_0).subrange(0, error_prefix().len() as int)
        =~= error_prefix());
}

/// A message of three fields is written with its fields in declaration order.
pub proof fn fields_in_declaration_order(t: Target, name: Seq<char>, m: MessageView)
    requires
        m.fields.len() == 3,
    ensures
        render_class(t, name, m) == doc(t, seq![], m.comment) + class_kw(t) + name + " {\n"@
            + field_text(t, m.fields[0]) + field_text(t, m.fields[1]) + field_text(t, m.fields[2])
            + "}\n"@,
{
    let fs = m.fields;
    let f2 = fs.drop_last();
    let f1 = f2.drop_last();
    let f0 = f1.drop_last();
    assert(f0.len() == 0);
    assert(fields_text(t, f0) == Seq::<char>::empty());
    assert(f1.last() == fs[0] && f2.last() == fs[1] && fs.last() == fs[2]);
    assert(fields_text(t, f1) == fields_text(t, f0) + field_text(t, fs[0]));
    assert(fields_text(t, f2) == fields_text(t, f1) + field_text(t, fs[1]));
    assert(fields_text(t, fs) == fields_text(t, f2) + field_text(t, fs[2]));
    assert(fields_text(t, fs) =~= field_text(t, fs[0]) + field_text(t, fs[1]) + field_text(
        t,
        fs[2],
    ));
    assert(render_class(t, name, m) =~= doc(t, seq![], m.comment) + class_kw(t) + name + " {\n"@
        + field_text(t, m.fields[0]) + field_text(t, m.fields[1]) + field_text(t, m.fields[2])
        + "}\n"@);
}

/// An enum of three constants is written with its constants in declaration order.
pub proof fn values_in_declaration_order(t: Target, name: Seq<char>, e: EnumView)
    requires
        e.values.len() == 3,
    ensures
        render_enum(t, name, e) == doc(t, seq![], e.comment) + enum_kw_text(t) + name
            + enum_head_end(t) + value_text(t, e.values[0]) + value_text(t, e.values[1])
            + value_text(t, e.values[2]) + enum_end(t, name),
{
    let vs = e.values;
    let v2 = vs.drop_last();
    let v1 = v2.drop_last();
    let v0 = v1.drop_last();
    assert(v0.len() == 0);
    assert(values_text(t, v0) == Seq::<char>::empty());
    assert(v1.last() == vs[0] && v2.last() == vs[1] && vs.last() == vs[2]);
    assert(values_text(t, v1) == values_text(t, v0) + value_text(t, vs[0]));
    assert(values_text(t, v2) == values_text(t, v1) + value_text(t, vs[1]));
    assert(values_text(t, vs) == values_text(t, v2) + value_text(t, vs[2]));
    assert(values_text(t, vs) =~= value_text(t, vs[0]) + value_text(t, vs[1]) + value_text(
        t,
        vs[2],
    ));
    assert(render_enum(t, name, e) =~= doc(t, seq![], e.comment) + enum_kw_text(t) + name
        + enum_head_end(t) + value_text(t, e.values[0]) + value_text(t, e.values[1])
        + value_text(t, e.values[2]) + enum_end(t, name));
}

/// Whether `out` can be told from the error text and from the note that nothing was
/// found by its first and third characters.
pub open spec fn unlike_notes(out: Seq<char>) -> bool {
    out.len() >= 3 && (out[0] != '/' || out[2] != ' ')
}

/// Schema text with exactly one message block and no enum block is written, by every
/// target, as the declaration of that message: its name follows the target's type
/// keyword, and the text is neither a parse error nor the note that nothing was found.
pub proof fn single_message_is_declared(text: Seq<char>, t: Target)
    requires
        message_blocks(text).len() == 1,
        enum_blocks(text).len() == 0,
    ensures
        ({
            let b = message_blocks(text)[0];
            let out = convert(t, text);
            let head = doc(t, seq![], b.comment).len() as int;
            &&& out == render_class(
                t,
                b.name,
                MessageView { fields: fields_of_body(b.body), comment: b.comment },
            )
            &&& out.subrange(head, head + class_kw(t).len() + b.name.len()) == class_kw(t)
                + b.name
            &&& unlike_notes(out)
            &&& !(exists|e: Seq<char>| out == error_prefix() + e)
            &&& out != not_found()
        }),
{
    let bs = message_blocks(text);
    let b = bs[0];
    let mv = MessageView { fields: fields_of_body(b.body), comment: b.comment };
    assert(bs.drop_last() =~= Seq::<Block>::empty());
    assert(build_messages(bs.drop_last()) == Seq::<(Seq<char>, MessageView)>::empty());
    assert(key_pos(Seq::<(Seq<char>, MessageView)>::empty(), b.name, 0) == -1);
    assert(build_messages(bs) =~= seq![(b.name, mv)]);
    assert(build_enums(enum_blocks(text)) == Ok::<Seq<(Seq<char>, EnumView)>, Seq<char>>(
        Seq::empty(),
    ));
    let out = convert(t, text);
    assert(out == render_class(t, b.name, mv));
    let d = doc(t, seq![], b.comment);
    let kw = class_kw(t);
    assert(out =~= d + (kw + b.name) + (" {\n"@ + fields_text(t, mv.fields) + "}\n"@));
    assert(out.subrange(d.len() as int, d.len() + kw.len() + b.name.len() as int) =~= kw + b.name);
    reveal_strlit("/// ");
    reveal_strlit("/** ");
    reveal_strlit("struct ");
    reveal_strlit("class ");
    reveal_strlit("export interface ");
    reveal_strlit("// Error parsing proto: ");
    reveal_strlit("// No valid proto message or enum found");
    match b.comment {
        Some(c) => {
            assert(d =~= doc_open(t) + doc_body(t, c) + doc_close(t));
            assert(out[0] == doc_open(t)[0]);
            assert(out[2] == doc_open(t)[2]);
        },
        None => {
            assert(d.len() == 0);
            assert(out[0] == kw[0]);
        },
    }
    assert(unlike_notes(out));
    assert(error_prefix()[0] == '/' && error_prefix()[2] == ' ');
    assert(not_found()[0] == '/' && not_found()[2] == ' ');
    assert forall|e: Seq<char>| out != error_prefix() + e by {
        if out == error_prefix() + e {
            assert(out[0] == error_prefix()[0]);
            assert(out[2] == error_prefix()[2]);
        }
    }
}

/// The field that a plain field line declares.
pub open spec fn plain_field(t: Seq<char>, n: Seq<char>) -> FieldView {
    FieldView { name: n, field_type: t, is_repeated: false, comment: None }
}

/// A plain field line at `pos`, ended by a line break or by the end of the body, gives
/// its field and then the fields of the lines after it.
proof fn lemma_field_line_step(s: Seq<char>, pos: int, t: Seq<char>, n: Seq<char>, d: Seq<char>)
    requires
        word_text(t),
        word_text(n),
        digit_text(d),
        0 <= pos,
        pos + field_decl_text(t, n, d).len() <= s.len(),
        s.subrange(pos, pos + field_decl_text(t, n, d).len()) == field_decl_text(t, n, d),
        pos + field_decl_text(t, n, d).len() == s.len() || s[pos + field_decl_text(t, n, d).len()]
            == '\n',
    ensures
        body_fields(s, pos, None) == seq![plain_field(t, n)] + (if pos + field_decl_text(
            t,
            n,
            d,
        ).len() < s.len() {
            body_fields(s, pos + field_decl_text(t, n, d).len() + 1, None)
        } else {
            Seq::<FieldView>::empty()
        }),
{
    let x = field_decl_text(t, n, d);
    let e = pos + x.len();
    lemma_decl_chars(t, n, d);
    assert forall|m: int| pos <= m < e implies #[trigger] s[m] != '\n' by {
        assert(s[m] == s.subrange(pos, e)[m - pos]);
    }
    lemma_find_char(s, pos, e, '\n');
    assert(x.subrange(0, x.len() as int) =~= x);
    lemma_plain_decl(x, 0, t, n, d);
    lemma_one_decl_line(x, FieldDecl { field_type: t, name: n, repeated: false });
    assert(line_fields(x, None) =~= seq![plain_field(t, n)]);
    lemma_run_end(x, 0, 0, CharClass::Space);
    assert(comment_text(x) is None);
    if e == s.len() {
        assert(seq![plain_field(t, n)] + Seq::<FieldView>::empty() =~= seq![plain_field(t, n)]);
    }
}

/// Three plain field lines give their three fields in the order of the lines.
pub proof fn field_lines_in_order(
    t1: Seq<char>,
    n1: Seq<char>,
    d1: Seq<char>,
    t2: Seq<char>,
    n2: Seq<char>,
    d2: Seq<char>,
    t3: Seq<char>,
    n3: Seq<char>,
    d3: Seq<char>,
)
    requires
        word_text(t1),
        word_text(n1),
        digit_text(d1),
        word_text(t2),
        word_text(n2),
        digit_text(d2),
        word_text(t3),
        word_text(n3),
        digit_text(d3),
    ensures
        fields_of_body(
            field_decl_text(t1, n1, d1) + seq!['\n'] + field_decl_text(t2, n2, d2) + seq!['\n']
                + field_decl_text(t3, n3, d3),
        ) == seq![plain_field(t1, n1), plain_field(t2, n2), plain_field(t3, n3)],
{
    let x1 = field_decl_text(t1, n1, d1);
    let x2 = field_decl_text(t2, n2, d2);
    let x3 = field_decl_text(t3, n3, d3);
    let s = x1 + seq!['\n'] + x2 + seq!['\n'] + x3;
    let p2 = x1.len() as int + 1;
    let p3 = p2 + x2.len() as int + 1;
    assert(s.subrange(0, x1.len() as int) =~= x1);
    assert(s[x1.len() as int] == '\n');
    lemma_field_line_step(s, 0, t1, n1, d1);
    assert(s.subrange(p2, p2 + x2.len()) =~= x2);
    assert(s[p2 + x2.len()] == '\n');
    lemma_field_line_step(s, p2, t2, n2, d2);
    assert(s.subrange(p3, p3 + x3.len()) =~= x3);
    assert(p3 + x3.len() == s.len());
    lemma_field_line_step(s, p3, t3, n3, d3);
    assert(body_fields(s, 0, None) =~= seq![
        plain_field(t1, n1),
        plain_field(t2, n2),
        plain_field(t3, n3),
    ]);
}

} // verus!
