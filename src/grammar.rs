use vstd::prelude::*;

use crate::model::{upsert, EnumView, FieldView, MessageView, ValueView};
use crate::text::{
    comment_text, find_char, i32_of, join_comments, nonblank, run_end, slashes_at, trim, CharClass,
};

verus! {

pub open spec fn repeated_kw() -> Seq<char> {
    seq!['r', 'e', 'p', 'e', 'a', 't', 'e', 'd']
}

pub open spec fn message_kw() -> Seq<char> {
    seq!['m', 'e', 's', 's', 'a', 'g', 'e']
}

pub open spec fn enum_kw() -> Seq<char> {
    seq!['e', 'n', 'u', 'm']
}

/// A field declaration read from a line, before comments are attached.
pub struct FieldDecl {
    pub field_type: Seq<char>,
    pub name: Seq<char>,
    pub repeated: bool,
}

/// A `message` or `enum` block: its name, the text between its braces, and the
/// comment on the line above it.
pub struct Block {
    pub name: Seq<char>,
    pub body: Seq<char>,
    pub comment: Option<Seq<char>>,
}

/// What follows a tag or a value: an optional bracketed option clause, then `;`.
/// The position after the `;`.
pub open spec fn close_decl(s: Seq<char>, f: int) -> Option<int> {
    let g = run_end(s, f, CharClass::Space);
    if 0 <= g < s.len() && s[g] == ';' {
        Some(g + 1)
    } else if 0 <= g < s.len() && s[g] == '[' {
        let h = find_char(s, g + 1, ']');
        let k = run_end(s, h + 1, CharClass::Space);
        if h < s.len() && 0 <= k < s.len() && s[k] == ';' {
            Some(k + 1)
        } else {
            None
        }
    } else {
        None
    }
}

/// `<type> <name> = <tag>` and the close, at `i`: the type, the name and the end.
pub open spec fn plain_decl(s: Seq<char>, i: int) -> Option<(Seq<char>, Seq<char>, int)> {
    let a = run_end(s, i, CharClass::Word);
    let b = run_end(s, a, CharClass::Space);
    let c = run_end(s, b, CharClass::Word);
    let d = run_end(s, c, CharClass::Space);
    let e = run_end(s, d + 1, CharClass::Space);
    let f = run_end(s, e, CharClass::Digit);
    if a > i && b > a && c > b && 0 <= d < s.len() && s[d] == '=' && f > e {
        match close_decl(s, f) {
            Some(g) => Some((s.subrange(i, a), s.subrange(b, c), g)),
            None => None,
        }
    } else {
        None
    }
}

/// A field declaration at `i`, with or without the `repeated` modifier, and its end.
pub open spec fn decl_at(s: Seq<char>, i: int) -> Option<(FieldDecl, int)> {
    match plain_decl(s, i) {
        Some((t, n, g)) => Some((FieldDecl { field_type: t, name: n, repeated: false }, g)),
        None => {
            let w = i + 8;
            let p = run_end(s, w, CharClass::Space);
            if 0 <= i && w <= s.len() && s.subrange(i, w) == repeated_kw() && p > w {
                match plain_decl(s, p) {
                    Some((t, n, g)) => Some(
                        (FieldDecl { field_type: t, name: n, repeated: true }, g),
                    ),
                    None => None,
                }
            } else {
                None
            }
        },
    }
}

/// The field declarations of a line from `i` on, and where reading stopped: at the
/// end, at a `//` comment, or at text that is no declaration.
pub open spec fn line_decls(s: Seq<char>, i: int) -> (Seq<FieldDecl>, int)
    decreases s.len() - i,
{
    let p = run_end(s, i, CharClass::Space);
    if p >= s.len() || slashes_at(s, p) {
        (seq![], p)
    } else {
        match decl_at(s, p) {
            Some((d, e)) => if i < e <= s.len() {
                let r = line_decls(s, e);
                (seq![d] + r.0, r.1)
            } else {
                (seq![], p)
            },
            None => (seq![], p),
        }
    }
}

/// A `//` comment at `q`, the rest of the line.
pub open spec fn trailing_comment(s: Seq<char>, q: int) -> Option<Seq<char>> {
    if slashes_at(s, q) {
        nonblank(trim(s.subrange(q + 2, s.len() as int)))
    } else {
        None
    }
}

/// The comment of the `k`th of `n` declarations on a line: the comment of the line
/// above goes to the first, the comment at the end of the line to the last.
pub open spec fn decl_comment(
    k: int,
    n: int,
    lead: Option<Seq<char>>,
    tail: Option<Seq<char>>,
) -> Option<Seq<char>> {
    join_comments(
        if k == 0 {
            lead
        } else {
            None
        },
        if k == n - 1 {
            tail
        } else {
            None
        },
    )
}

/// The fields of one line of a message body; `lead` is the comment of the line above.
pub open spec fn line_fields(line: Seq<char>, lead: Option<Seq<char>>) -> Seq<FieldView> {
    let r = line_decls(line, 0);
    let ds = r.0;
    let tail = trailing_comment(line, r.1);
    Seq::new(
        ds.len(),
        |k: int|
            FieldView {
                name: ds[k].name,
                field_type: ds[k].field_type,
                is_repeated: ds[k].repeated,
                comment: decl_comment(k, ds.len() as int, lead, tail),
            },
    )
}

/// The fields of the lines of a message body from `pos` on.
pub open spec fn body_fields(s: Seq<char>, pos: int, lead: Option<Seq<char>>) -> Seq<FieldView>
    decreases s.len() - pos,
{
    if pos < 0 || pos >= s.len() {
        seq![]
    } else {
        let e = find_char(s, pos, '\n');
        if e < pos {
            seq![]
        } else {
            let line = s.subrange(pos, e);
            if e < s.len() {
                line_fields(line, lead) + body_fields(s, e + 1, comment_text(line))
            } else {
                line_fields(line, lead)
            }
        }
    }
}

/// The fields of a message body, in order.
pub open spec fn fields_of_body(s: Seq<char>) -> Seq<FieldView> {
    body_fields(s, 0, None)
}

/// `<name> = <literal>` and the close, at `i`: the name, the literal and the end.
pub open spec fn value_at(s: Seq<char>, i: int) -> Option<(Seq<char>, Seq<char>, int)> {
    let a = run_end(s, i, CharClass::Word);
    let d = run_end(s, a, CharClass::Space);
    let e = run_end(s, d + 1, CharClass::Space);
    let f = run_end(s, e, CharClass::Literal);
    if a > i && 0 <= d < s.len() && s[d] == '=' && f > e {
        match close_decl(s, f) {
            Some(g) => Some((s.subrange(i, a), s.subrange(e, f), g)),
            None => None,
        }
    } else {
        None
    }
}

/// The value declarations of a line from `i` on, and where reading stopped.
pub open spec fn line_items(s: Seq<char>, i: int) -> (Seq<(Seq<char>, Seq<char>)>, int)
    decreases s.len() - i,
{
    let p = run_end(s, i, CharClass::Space);
    if p >= s.len() || slashes_at(s, p) {
        (seq![], p)
    } else {
        match value_at(s, p) {
            Some((n, l, e)) => if i < e <= s.len() {
                let r = line_items(s, e);
                (seq![(n, l)] + r.0, r.1)
            } else {
                (seq![], p)
            },
            None => (seq![], p),
        }
    }
}

pub open spec fn invalid_value_message(literal: Seq<char>) -> Seq<char> {
    "Invalid enum value: "@ + literal
}

/// `r` with `acc` before its values, or its error.
pub open spec fn prepend<T>(acc: Seq<T>, r: Result<Seq<T>, Seq<char>>) -> Result<
    Seq<T>,
    Seq<char>,
> {
    match r {
        Ok(rest) => Ok(acc + rest),
        Err(e) => Err(e),
    }
}

/// The values of a line from its `k`th declaration on; the first literal that is no
/// 32-bit integer is an error.
pub open spec fn eval_items(
    items: Seq<(Seq<char>, Seq<char>)>,
    k: int,
    lead: Option<Seq<char>>,
    tail: Option<Seq<char>>,
) -> Result<Seq<ValueView>, Seq<char>>
    decreases items.len() - k,
{
    if k < 0 || k >= items.len() {
        Ok(seq![])
    } else {
        match i32_of(items[k].1) {
            None => Err(invalid_value_message(items[k].1)),
            Some(v) => prepend(
                seq![
                    ValueView {
                        name: items[k].0,
                        value: v,
                        comment: decl_comment(k, items.len() as int, lead, tail),
                    },
                ],
                eval_items(items, k + 1, lead, tail),
            ),
        }
    }
}

/// The values of one line of an enum body; `lead` is the comment of the line above.
pub open spec fn line_values(line: Seq<char>, lead: Option<Seq<char>>) -> Result<
    Seq<ValueView>,
    Seq<char>,
> {
    let r = line_items(line, 0);
    eval_items(r.0, 0, lead, trailing_comment(line, r.1))
}

/// The values of the lines of an enum body from `pos` on.
pub open spec fn body_values(s: Seq<char>, pos: int, lead: Option<Seq<char>>) -> Result<
    Seq<ValueView>,
    Seq<char>,
>
    decreases s.len() - pos,
{
    if pos < 0 || pos >= s.len() {
        Ok(seq![])
    } else {
        let e = find_char(s, pos, '\n');
        if e < pos {
            Ok(seq![])
        } else {
            let line = s.subrange(pos, e);
            match line_values(line, lead) {
                Err(x) => Err(x),
                Ok(vs) => if e < s.len() {
                    prepend(vs, body_values(s, e + 1, comment_text(line)))
                } else {
                    Ok(vs)
                },
            }
        }
    }
}

/// The values of an enum body, in order, or the error of its first bad literal.
pub open spec fn values_of_body(s: Seq<char>) -> Result<Seq<ValueView>, Seq<char>> {
    body_values(s, 0, None)
}

/// The position of the `}` that closes a block whose body starts at `i`; with
/// `nested`, the body may hold brace pairs one level deep.
pub open spec fn block_close(s: Seq<char>, i: int, nested: bool) -> Option<int>
    decreases s.len() - i,
{
    if i < 0 || i >= s.len() {
        None
    } else if s[i] == '}' {
        Some(i)
    } else if s[i] == '{' {
        if nested {
            match block_close(s, i + 1, false) {
                Some(j) => if i < j < s.len() {
                    block_close(s, j + 1, true)
                } else {
                    None
                },
                None => None,
            }
        } else {
            None
        }
    } else {
        block_close(s, i + 1, nested)
    }
}

/// `<kw> <name> {<body>}` at `i`: where the name and the body start and end.
pub open spec fn block_at(s: Seq<char>, i: int, kw: Seq<char>, nested: bool) -> Option<
    (int, int, int, int),
> {
    let w = i + kw.len();
    let b = run_end(s, w, CharClass::Space);
    let c = run_end(s, b, CharClass::Word);
    let d = run_end(s, c, CharClass::Space);
    if 0 <= i && w <= s.len() && s.subrange(i, w) == kw && b > w && c > b && d < s.len() && s[d]
        == '{' {
        match block_close(s, d + 1, nested) {
            Some(e) => Some((b, c, d + 1, e)),
            None => None,
        }
    } else {
        None
    }
}

/// The start of the line that holds position `i`.
pub open spec fn line_start(s: Seq<char>, i: int) -> int
    decreases i,
{
    if i <= 0 {
        0
    } else if s[i - 1] == '\n' {
        i
    } else {
        line_start(s, i - 1)
    }
}

/// The comment of a block at `i`: the text of a `//` line right above the line on
/// which the block starts, where nothing but blanks stands before it on that line.
pub open spec fn block_comment(s: Seq<char>, i: int) -> Option<Seq<char>> {
    let ls = line_start(s, i);
    if 0 < ls && run_end(s, ls, CharClass::Space) >= i {
        comment_text(s.subrange(line_start(s, ls - 1), ls - 1))
    } else {
        None
    }
}

/// The blocks of keyword `kw` from `i` on, left to right, none inside another.
pub open spec fn scan_blocks(s: Seq<char>, i: int, kw: Seq<char>, nested: bool) -> Seq<Block>
    decreases s.len() - i,
{
    if i < 0 || i >= s.len() {
        seq![]
    } else {
        match block_at(s, i, kw, nested) {
            Some((b, c, d, e)) => if i < e < s.len() {
                seq![
                    Block {
                        name: s.subrange(b, c),
                        body: s.subrange(d, e),
                        comment: block_comment(s, i),
                    },
                ] + scan_blocks(s, e + 1, kw, nested)
            } else {
                seq![]
            },
            None => scan_blocks(s, i + 1, kw, nested),
        }
    }
}

pub open spec fn message_blocks(s: Seq<char>) -> Seq<Block> {
    scan_blocks(s, 0, message_kw(), true)
}

pub open spec fn enum_blocks(s: Seq<char>) -> Seq<Block> {
    scan_blocks(s, 0, enum_kw(), false)
}

/// The messages of the blocks, a later one of a name taking the place of the earlier.
pub open spec fn build_messages(bs: Seq<Block>) -> Seq<(Seq<char>, MessageView)>
    decreases bs.len(),
{
    if bs.len() == 0 {
        seq![]
    } else {
        let b = bs.last();
        upsert(
            build_messages(bs.drop_last()),
            b.name,
            MessageView { fields: fields_of_body(b.body), comment: b.comment },
        )
    }
}

/// The enums of the blocks, or the error of the first bad value.
pub open spec fn build_enums(bs: Seq<Block>) -> Result<Seq<(Seq<char>, EnumView)>, Seq<char>>
    decreases bs.len(),
{
    if bs.len() == 0 {
        Ok(seq![])
    } else {
        let b = bs.last();
        match build_enums(bs.drop_last()) {
            Err(e) => Err(e),
            Ok(m) => match values_of_body(b.body) {
                Err(e) => Err(e),
                Ok(vs) => Ok(upsert(m, b.name, EnumView { values: vs, comment: b.comment })),
            },
        }
    }
}

/// What schema text holds: its messages and its enums, or the error of a bad value.
pub open spec fn schema(s: Seq<char>) -> Result<
    (Seq<(Seq<char>, MessageView)>, Seq<(Seq<char>, EnumView)>),
    Seq<char>,
> {
    match build_enums(enum_blocks(s)) {
        Err(e) => Err(e),
        Ok(en) => Ok((build_messages(message_blocks(s)), en)),
    }
}

/// Blocks after a failing one leave the enums failing.
pub proof fn lemma_enums_stop(bs: Seq<Block>, more: Seq<Block>)
    ensures
        build_enums(bs) is Err ==> build_enums(bs + more) == build_enums(bs),
    decreases more.len(),
{
    if more.len() > 0 && build_enums(bs) is Err {
        let p = more.drop_last();
        lemma_enums_stop(bs, p);
        assert((bs + more).drop_last() =~= bs + p);
    } else if more.len() == 0 {
        assert(bs + more =~= bs);
    }
}

} // verus!
