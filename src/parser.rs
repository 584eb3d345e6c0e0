use vstd::prelude::*;

use crate::grammar::{
    block_at, block_close, block_comment, build_enums, build_messages, close_decl, decl_at,
    decl_comment, enum_blocks, enum_kw, eval_items, fields_of_body, lemma_enums_stop, line_decls,
    line_fields, line_items, line_start, line_values, message_blocks, message_kw, plain_decl,
    prepend, repeated_kw, scan_blocks, schema, trailing_comment, value_at, values_of_body, Block,
    FieldDecl, body_fields, body_values, invalid_value_message,
};
use crate::model::{
    insert_named, named_view, opt_view, EnumView, FieldView, MessageView, Named, ProtoEnum,
    ProtoEnumValue, ProtoField, ProtoMessage, ValueView,
};
use crate::text::{
    all_digits, chars_between, chars_of, digits_value, find, has_slashes, i32_of, is_digit,
    join_comments, line_comment, some_text, skip_run, string_between, string_of, trimmed_between, CharClass,
};

verus! {

/// Reads schema text into messages and enums.
pub struct ProtoParserCore;

pub open spec fn opt_pos(o: Option<usize>) -> Option<int> {
    match o {
        Some(p) => Some(p as int),
        None => None,
    }
}

pub open spec fn fields_view(v: Seq<ProtoField>) -> Seq<FieldView> {
    v.map_values(|f: ProtoField| f@)
}

pub open spec fn values_view(v: Seq<ProtoEnumValue>) -> Seq<ValueView> {
    v.map_values(|x: ProtoEnumValue| x@)
}

pub open spec fn values_result(r: Result<Vec<ProtoEnumValue>, String>) -> Result<
    Seq<ValueView>,
    Seq<char>,
> {
    match r {
        Ok(v) => Ok(values_view(v@)),
        Err(e) => Err(e@),
    }
}

pub open spec fn schema_result(
    r: Result<(Named<ProtoMessage>, Named<ProtoEnum>), String>,
) -> Result<(Seq<(Seq<char>, MessageView)>, Seq<(Seq<char>, EnumView)>), Seq<char>> {
    match r {
        Ok((m, e)) => Ok((named_view(m@), named_view(e@))),
        Err(x) => Err(x@),
    }
}

pub open spec fn decls_view(v: Seq<(String, String, bool)>) -> Seq<FieldDecl> {
    v.map_values(|d: (String, String, bool)| FieldDecl { field_type: d.0@, name: d.1@, repeated: d.2 })
}

pub open spec fn items_view(v: Seq<(String, Vec<char>)>) -> Seq<(Seq<char>, Seq<char>)> {
    v.map_values(|d: (String, Vec<char>)| (d.0@, d.1@))
}

/// Whether `s` holds the characters of `w` at `i`.
fn matches_at(s: &Vec<char>, i: usize, w: &Vec<char>) -> (r: bool)
    ensures
        r == (i + w.len() <= s.len() && s@.subrange(i as int, i + w.len()) == w@),
{
    if i > s.len() || w.len() > s.len() - i {
        return false;
    }
    let mut k: usize = 0;
    while k < w.len()
        invariant
            k <= w.len(),
            i + w.len() <= s.len(),
            forall|m: int| 0 <= m < k ==> s@[i + m] == w@[m],
        decreases w.len() - k,
    {
        if s[i + k] != w[k] {
            assert(s@.subrange(i as int, i + w.len())[k as int] != w@[k as int]);
            return false;
        }
        k = k + 1;
    }
    assert(s@.subrange(i as int, i + w.len()) =~= w@);
    true
}

fn close_at(s: &Vec<char>, f: usize) -> (r: Option<usize>)
    requires
        f <= s.len(),
    ensures
        opt_pos(r) == close_decl(s@, f as int),
        r matches Some(g) ==> f < g <= s.len(),
{
    let g = skip_run(s, f, CharClass::Space);
    if g < s.len() && s[g] == ';' {
        Some(g + 1)
    } else if g < s.len() && s[g] == '[' {
        let h = find(s, g + 1, ']');
        if h < s.len() {
            let k = skip_run(s, h + 1, CharClass::Space);
            if k < s.len() && s[k] == ';' {
                Some(k + 1)
            } else {
                None
            }
        } else {
            None
        }
    } else {
        None
    }
}

fn plain_at(s: &Vec<char>, i: usize) -> (r: Option<(String, String, usize)>)
    requires
        i <= s.len(),
    ensures
        match r {
            Some((t, n, g)) => plain_decl(s@, i as int) == Some((t@, n@, g as int)) && i < g
                <= s.len(),
            None => plain_decl(s@, i as int) is None,
        },
{
    let a = skip_run(s, i, CharClass::Word);
    let b = skip_run(s, a, CharClass::Space);
    let c = skip_run(s, b, CharClass::Word);
    let d = skip_run(s, c, CharClass::Space);
    if a > i && b > a && c > b && d < s.len() && s[d] == '=' {
        let e = skip_run(s, d + 1, CharClass::Space);
        let f = skip_run(s, e, CharClass::Digit);
        if f > e {
            match close_at(s, f) {
                Some(g) => Some((string_between(s, i, a), string_between(s, b, c), g)),
                None => None,
            }
        } else {
            None
        }
    } else {
        None
    }
}

fn decl_here(s: &Vec<char>, i: usize) -> (r: Option<(String, String, bool, usize)>)
    requires
        i <= s.len(),
    ensures
        match r {
            Some((t, n, rep, g)) => decl_at(s@, i as int) == Some(
                (FieldDecl { field_type: t@, name: n@, repeated: rep }, g as int),
            ) && i < g <= s.len(),
            None => decl_at(s@, i as int) is None,
        },
{
    match plain_at(s, i) {
        Some((t, n, g)) => Some((t, n, false, g)),
        None => {
            let kw = vec!['r', 'e', 'p', 'e', 'a', 't', 'e', 'd'];
            assert(kw@ =~= repeated_kw());
            if matches_at(s, i, &kw) {
                let p = skip_run(s, i + 8, CharClass::Space);
                if p > i + 8 {
                    match plain_at(s, p) {
                        Some((t, n, g)) => Some((t, n, true, g)),
                        None => None,
                    }
                } else {
                    None
                }
            } else {
                None
            }
        },
    }
}

/// Reads the field declarations of a line from `i` on into `out`; returns where
/// reading stopped.
fn collect_decls(s: &Vec<char>, i: usize, out: &mut Vec<(String, String, bool)>) -> (r: usize)
    requires
        i <= s.len(),
    ensures
        decls_view(final(out)@) == decls_view(old(out)@) + line_decls(s@, i as int).0,
        r == line_decls(s@, i as int).1,
    decreases s.len() - i,
{
    let p = skip_run(s, i, CharClass::Space);
    if p >= s.len() || has_slashes(s, p) {
        assert(decls_view(out@) =~= decls_view(out@) + Seq::<FieldDecl>::empty());
        return p;
    }
    match decl_here(s, p) {
        Some((t, n, rep, e)) => {
            let ghost before = decls_view(out@);
            out.push((t, n, rep));
            assert(decls_view(out@) =~= before.push(
                FieldDecl { field_type: t@, name: n@, repeated: rep },
            ));
            let q = collect_decls(s, e, out);
            let ghost d = FieldDecl { field_type: t@, name: n@, repeated: rep };
            assert(before.push(d) + line_decls(s@, e as int).0 =~= before + (seq![d]
                + line_decls(s@, e as int).0));
            q
        },
        None => {
            assert(decls_view(out@) =~= decls_view(out@) + Seq::<FieldDecl>::empty());
            p
        },
    }
}

fn copy_opt(o: &Option<String>) -> (r: Option<String>)
    ensures
        opt_view(r) == opt_view(*o),
{
    match o {
        Some(s) => Some(s.clone()),
        None => None,
    }
}

fn join_opt(a: Option<String>, b: Option<String>) -> (r: Option<String>)
    ensures
        opt_view(r) == join_comments(opt_view(a), opt_view(b)),
{
    match (a, b) {
        (Some(x), Some(y)) => {
            let mut j = x;
            j.append(" ");
            proof {
                reveal_strlit(" ");
            }
            j.append(y.as_str());
            assert(j@ =~= x@ + seq![' '] + y@);
            Some(j)
        },
        (Some(x), None) => Some(x),
        (None, Some(y)) => Some(y),
        (None, None) => None,
    }
}

/// The comment of the `k`th of `n` declarations on a line.
fn comment_for(k: usize, n: usize, lead: &Option<String>, tail: &Option<String>) -> (r: Option<
    String,
>)
    ensures
        opt_view(r) == decl_comment(k as int, n as int, opt_view(*lead), opt_view(*tail)),
{
    let a = if k == 0 {
        copy_opt(lead)
    } else {
        None
    };
    let b = if n > 0 && k == n - 1 {
        copy_opt(tail)
    } else {
        None
    };
    join_opt(a, b)
}

/// The comment at `q` to the end of the line, if one starts there.
fn tail_comment(s: &Vec<char>, q: usize) -> (r: Option<String>)
    ensures
        opt_view(r) == trailing_comment(s@, q as int),
{
    if has_slashes(s, q) {
        assert(q + 1 < s.len());
        some_text(trimmed_between(s, q + 2, s.len()))
    } else {
        None
    }
}

/// Adds the fields of one line of a message body to `out`.
fn add_line_fields(line: &Vec<char>, lead: &Option<String>, out: &mut Vec<ProtoField>)
    ensures
        fields_view(final(out)@) == fields_view(old(out)@) + line_fields(line@, opt_view(*lead)),
{
    let mut decls: Vec<(String, String, bool)> = Vec::new();
    let q = collect_decls(line, 0, &mut decls);
    let ghost ds = line_decls(line@, 0).0;
    assert(decls_view(decls@) =~= ds);
    let tail = tail_comment(line, q);
    let ghost want = line_fields(line@, opt_view(*lead));
    let ghost start = fields_view(out@);
    let n = decls.len();
    let mut k: usize = 0;
    while k < n
        invariant
            k <= n == decls.len(),
            decls_view(decls@) == ds,
            ds == line_decls(line@, 0).0,
            want == line_fields(line@, opt_view(*lead)),
            want.len() == n,
            opt_view(tail) == trailing_comment(line@, line_decls(line@, 0).1),
            fields_view(out@) == start + want.take(k as int),
            start == fields_view(old(out)@),
        decreases n - k,
    {
        let comment = comment_for(k, n, lead, &tail);
        let d = &decls[k];
        let nm: String = d.1.clone();
        let ty: String = d.0.clone();
        let f = ProtoField {
            original_name: nm,
            field_type: ty,
            is_repeated: d.2,
            comment,
        };
        assert(decls_view(decls@)[k as int] == ds[k as int]);
        assert(f@ == want[k as int]);
        let ghost prev = out@;
        out.push(f);
        assert(fields_view(out@) =~= fields_view(prev).push(want[k as int]));
        assert(want.take(k + 1) =~= want.take(k as int).push(want[k as int]));
        assert(fields_view(out@) =~= start + want.take(k + 1));
        k = k + 1;
    }
    assert(want.take(n as int) =~= want);
}

/// The fields of a message body, in order.
fn fields_in(s: &Vec<char>) -> (r: Vec<ProtoField>)
    ensures
        fields_view(r@) == fields_of_body(s@),
{
    let mut out: Vec<ProtoField> = Vec::new();
    let mut lead: Option<String> = None;
    let mut pos: usize = 0;
    while pos < s.len()
        invariant
            pos <= s.len(),
            fields_of_body(s@) == fields_view(out@) + body_fields(s@, pos as int, opt_view(lead)),
        decreases s.len() - pos,
    {
        let e = find(s, pos, '\n');
        let line = chars_between(s, pos, e);
        let ghost before = fields_view(out@);
        let ghost l = opt_view(lead);
        add_line_fields(&line, &lead, &mut out);
        let next = line_comment(&line);
        if e < s.len() {
            assert(before + (line_fields(line@, l) + body_fields(s@, e + 1, opt_view(next)))
                =~= fields_view(out@) + body_fields(s@, e + 1, opt_view(next)));
            pos = e + 1;
        } else {
            assert(fields_view(out@) =~= fields_view(out@) + body_fields(
                s@,
                s.len() as int,
                opt_view(next),
            ));
            pos = s.len();
        }
        lead = next;
    }
    assert(fields_view(out@) =~= fields_view(out@) + body_fields(s@, pos as int, opt_view(lead)));
    out
}


fn value_here(s: &Vec<char>, i: usize) -> (r: Option<(String, Vec<char>, usize)>)
    requires
        i <= s.len(),
    ensures
        match r {
            Some((n, l, g)) => value_at(s@, i as int) == Some((n@, l@, g as int)) && i < g
                <= s.len(),
            None => value_at(s@, i as int) is None,
        },
{
    let a = skip_run(s, i, CharClass::Word);
    let d = skip_run(s, a, CharClass::Space);
    if a > i && d < s.len() && s[d] == '=' {
        let e = skip_run(s, d + 1, CharClass::Space);
        let f = skip_run(s, e, CharClass::Literal);
        if f > e {
            match close_at(s, f) {
                Some(g) => Some((string_between(s, i, a), chars_between(s, e, f), g)),
                None => None,
            }
        } else {
            None
        }
    } else {
        None
    }
}

/// Reads the value declarations of a line from `i` on into `out`; returns where
/// reading stopped.
fn collect_items(s: &Vec<char>, i: usize, out: &mut Vec<(String, Vec<char>)>) -> (r: usize)
    requires
        i <= s.len(),
    ensures
        items_view(final(out)@) == items_view(old(out)@) + line_items(s@, i as int).0,
        r == line_items(s@, i as int).1,
    decreases s.len() - i,
{
    let p = skip_run(s, i, CharClass::Space);
    if p >= s.len() || has_slashes(s, p) {
        assert(items_view(out@) =~= items_view(out@) + Seq::<(Seq<char>, Seq<char>)>::empty());
        return p;
    }
    match value_here(s, p) {
        Some((n, l, e)) => {
            let ghost before = items_view(out@);
            let ghost d = (n@, l@);
            out.push((n, l));
            assert(items_view(out@) =~= before.push(d));
            let q = collect_items(s, e, out);
            assert(before.push(d) + line_items(s@, e as int).0 =~= before + (seq![d]
                + line_items(s@, e as int).0));
            q
        },
        None => {
            assert(items_view(out@) =~= items_view(out@) + Seq::<(Seq<char>, Seq<char>)>::empty());
            p
        },
    }
}

proof fn lemma_digits_prefix(s: Seq<char>, j: int)
    requires
        0 <= j <= s.len(),
    ensures
        0 <= digits_value(s.take(j)) <= digits_value(s) || !all_digits(s),
    decreases s.len(),
{
    if j < s.len() && all_digits(s) {
        let p = s.drop_last();
        assert(s.take(j) =~= p.take(j));
        assert(all_digits(p)) by {
            assert forall|i: int| 0 <= i < p.len() implies is_digit(#[trigger] p[i]) by {
                assert(p[i] == s[i]);
            }
        }
        lemma_digits_prefix(p, j);
        assert(is_digit(s[s.len() - 1]));
    } else if j == s.len() {
        assert(s.take(j) =~= s);
        lemma_digits_nonneg(s);
    }
}

proof fn lemma_digits_nonneg(s: Seq<char>)
    ensures
        digits_value(s) >= 0 || !all_digits(s),
    decreases s.len(),
{
    if s.len() > 0 && all_digits(s) {
        let p = s.drop_last();
        assert(all_digits(p)) by {
            assert forall|i: int| 0 <= i < p.len() implies is_digit(#[trigger] p[i]) by {
                assert(p[i] == s[i]);
            }
        }
        lemma_digits_nonneg(p);
        assert(is_digit(s[s.len() - 1]));
    }
}

/// The 32-bit integer that a literal writes, if it is one.
pub fn parse_i32(lit: &Vec<char>) -> (r: Option<i32>)
    ensures
        r == i32_of(lit@),
{
    let n = lit.len();
    let signed = n > 0 && (lit[0] == '-' || lit[0] == '+');
    let neg = n > 0 && lit[0] == '-';
    let start: usize = if signed {
        1
    } else {
        0
    };
    let ghost ds = if signed {
        lit@.drop_first()
    } else {
        lit@
    };
    assert(ds =~= lit@.subrange(start as int, n as int));
    if start >= n {
        return None;
    }
    let mut v: u64 = 0;
    let mut k: usize = start;
    while k < n
        invariant
            start <= k <= n == lit.len(),
            ds == lit@.subrange(start as int, n as int),
            signed == (n > 0 && (lit@[0] == '-' || lit@[0] == '+')),
            neg == (n > 0 && lit@[0] == '-'),
            ds == (if signed {
                lit@.drop_first()
            } else {
                lit@
            }),
            all_digits(ds.take(k - start)),
            v == digits_value(ds.take(k - start)),
            v <= 2147483648,
        decreases n - k,
    {
        let c = lit[k];
        if !('0' <= c && c <= '9') {
            assert(!is_digit(ds[k - start]));
            return None;
        }
        let dv: u64 = (c as u32 - 48) as u64;
        let ghost t = ds.take(k - start + 1);
        assert(t.drop_last() =~= ds.take(k - start));
        assert(all_digits(t)) by {
            assert forall|i: int| 0 <= i < t.len() implies is_digit(#[trigger] t[i]) by {
                if i < t.len() - 1 {
                    assert(t[i] == ds.take(k - start)[i]);
                }
            }
        }
        v = v * 10 + dv;
        assert(v == digits_value(t));
        if v > 2147483648 {
            proof {
                lemma_digits_prefix(ds, k - start + 1);
            }
            return None;
        }
        k = k + 1;
    }
    assert(ds.take(n - start) =~= ds);
    if neg {
        Some((-(v as i64)) as i32)
    } else if v <= 2147483647 {
        Some(v as i32)
    } else {
        None
    }
}

/// Adds the values of one line of an enum body to `out`, or fails on the first bad
/// literal.
fn add_line_values(line: &Vec<char>, lead: &Option<String>, out: &mut Vec<ProtoEnumValue>) -> (r:
    Result<(), String>)
    ensures
        match line_values(line@, opt_view(*lead)) {
            Ok(vs) => r is Ok && values_view(final(out)@) == values_view(old(out)@) + vs,
            Err(e) => r matches Err(x) && x@ == e,
        },
{
    let mut items: Vec<(String, Vec<char>)> = Vec::new();
    let q = collect_items(line, 0, &mut items);
    let ghost its = line_items(line@, 0).0;
    assert(items_view(items@) =~= its);
    let tail = tail_comment(line, q);
    let ghost tl = trailing_comment(line@, q as int);
    let ghost ld = opt_view(*lead);
    let ghost start = values_view(out@);
    let n = items.len();
    let mut k: usize = 0;
    while k < n
        invariant
            k <= n == items.len(),
            items_view(items@) == its,
            its == line_items(line@, 0).0,
            q == line_items(line@, 0).1,
            opt_view(tail) == tl,
            tl == trailing_comment(line@, q as int),
            ld == opt_view(*lead),
            start == values_view(old(out)@),
            line_values(line@, ld) == prepend(
                values_view(out@).subrange(start.len() as int, values_view(out@).len() as int),
                eval_items(its, k as int, ld, tl),
            ),
            values_view(out@).subrange(0, start.len() as int) == start,
            start.len() <= values_view(out@).len(),
        decreases n - k,
    {
        let lit = &items[k].1;
        assert(lit@ == its[k as int].1);
        match parse_i32(lit) {
            None => {
                let mut msg = String::new();
                msg.append("Invalid enum value: ");
                let text = string_of(lit.as_slice());
                msg.append(text.as_str());
                return Err(msg);
            },
            Some(v) => {
                let comment = comment_for(k, n, lead, &tail);
                let x = ProtoEnumValue { name: items[k].0.clone(), value: v, comment };
                let ghost prev = values_view(out@);
                let ghost acc = prev.subrange(start.len() as int, prev.len() as int);
                out.push(x);
                assert(values_view(out@) =~= prev.push(x@));
                assert(values_view(out@).subrange(start.len() as int, values_view(out@).len() as int)
                    =~= acc + seq![x@]);
                assert(values_view(out@).subrange(0, start.len() as int) =~= prev.subrange(
                    0,
                    start.len() as int,
                ));
                proof {
                    match eval_items(its, k + 1, ld, tl) {
                        Ok(rest) => {
                            assert(acc + (seq![x@] + rest) =~= (acc + seq![x@]) + rest);
                        },
                        Err(_) => {},
                    }
                }
                k = k + 1;
            },
        }
    }
    assert(values_view(out@) =~= start + values_view(out@).subrange(
        start.len() as int,
        values_view(out@).len() as int,
    ));
    Ok(())
}

/// The values of an enum body, in order, or the error of its first bad literal.
fn values_in(s: &Vec<char>) -> (r: Result<Vec<ProtoEnumValue>, String>)
    ensures
        values_result(r) == values_of_body(s@),
{
    let mut out: Vec<ProtoEnumValue> = Vec::new();
    let mut lead: Option<String> = None;
    let mut pos: usize = 0;
    while pos < s.len()
        invariant
            pos <= s.len(),
            values_of_body(s@) == prepend(values_view(out@), body_values(s@, pos as int, opt_view(lead))),
        decreases s.len() - pos,
    {
        let e = find(s, pos, '\n');
        let line = chars_between(s, pos, e);
        let ghost before = values_view(out@);
        let ghost l = opt_view(lead);
        match add_line_values(&line, &lead, &mut out) {
            Err(x) => {
                return Err(x);
            },
            Ok(()) => {},
        }
        let next = line_comment(&line);
        let ghost vs = values_view(out@).subrange(before.len() as int, values_view(out@).len() as int);
        assert(values_view(out@) =~= before + vs);
        proof {
            match line_values(line@, l) {
                Ok(w) => {
                    assert(vs =~= w);
                },
                Err(_) => {},
            }
        }
        assert(line_values(line@, l) == Ok::<Seq<ValueView>, Seq<char>>(vs));
        if e < s.len() {
            assert(body_values(s@, pos as int, l) == prepend(vs, body_values(s@, e + 1, opt_view(next))));
            proof {
                match body_values(s@, e + 1, opt_view(next)) {
                    Ok(rest) => {
                        assert(before + (vs + rest) =~= values_view(out@) + rest);
                    },
                    Err(_) => {},
                }
            }
            pos = e + 1;
        } else {
            assert(values_view(out@) + Seq::<ValueView>::empty() =~= values_view(out@));
            pos = s.len();
        }
        lead = next;
    }
    Ok(out)
}


/// The `}` that closes a body from `i` on, with no brace inside.
fn close_flat(s: &Vec<char>, i: usize) -> (r: Option<usize>)
    requires
        i <= s.len(),
    ensures
        opt_pos(r) == block_close(s@, i as int, false),
        r matches Some(k) ==> i <= k < s.len(),
{
    let mut j: usize = i;
    while j < s.len()
        invariant
            i <= j <= s.len(),
            block_close(s@, j as int, false) == block_close(s@, i as int, false),
        decreases s.len() - j,
    {
        if s[j] == '}' {
            return Some(j);
        }
        if s[j] == '{' {
            return None;
        }
        j = j + 1;
    }
    None
}

/// The `}` that closes a body from `i` on, with brace pairs one level deep inside.
fn close_nested(s: &Vec<char>, i: usize) -> (r: Option<usize>)
    requires
        i <= s.len(),
    ensures
        opt_pos(r) == block_close(s@, i as int, true),
        r matches Some(k) ==> i <= k < s.len(),
{
    let mut j: usize = i;
    while j < s.len()
        invariant
            i <= j <= s.len(),
            block_close(s@, j as int, true) == block_close(s@, i as int, true),
        decreases s.len() - j,
    {
        if s[j] == '}' {
            return Some(j);
        }
        if s[j] == '{' {
            match close_flat(s, j + 1) {
                Some(k) => {
                    j = k + 1;
                },
                None => {
                    return None;
                },
            }
        } else {
            j = j + 1;
        }
    }
    None
}

fn close_block(s: &Vec<char>, i: usize, nested: bool) -> (r: Option<usize>)
    requires
        i <= s.len(),
    ensures
        opt_pos(r) == block_close(s@, i as int, nested),
        r matches Some(k) ==> i <= k < s.len(),
{
    if nested {
        close_nested(s, i)
    } else {
        close_flat(s, i)
    }
}

/// `<kw> <name> {<body>}` at `i`: where the name and the body start and end.
fn block_here(s: &Vec<char>, i: usize, kw: &Vec<char>, nested: bool) -> (r: Option<
    (usize, usize, usize, usize),
>)
    requires
        i <= s.len(),
    ensures
        match r {
            Some((b, c, d, e)) => block_at(s@, i as int, kw@, nested) == Some(
                (b as int, c as int, d as int, e as int),
            ) && i < b <= c <= d <= e < s.len(),
            None => block_at(s@, i as int, kw@, nested) is None,
        },
{
    if !matches_at(s, i, kw) {
        return None;
    }
    let w = i + kw.len();
    let b = skip_run(s, w, CharClass::Space);
    let c = skip_run(s, b, CharClass::Word);
    let d = skip_run(s, c, CharClass::Space);
    if b > w && c > b && d < s.len() && s[d] == '{' {
        match close_block(s, d + 1, nested) {
            Some(e) => Some((b, c, d + 1, e)),
            None => None,
        }
    } else {
        None
    }
}

/// The start of the line that holds position `i`.
fn line_start_of(s: &Vec<char>, i: usize) -> (r: usize)
    requires
        i <= s.len(),
    ensures
        r == line_start(s@, i as int),
        r <= i,
{
    let mut j: usize = i;
    while j > 0 && s[j - 1] != '\n'
        invariant
            j <= i <= s.len(),
            line_start(s@, j as int) == line_start(s@, i as int),
        decreases j,
    {
        j = j - 1;
    }
    j
}

/// The comment on the line above a block that starts at `i`.
fn comment_above(s: &Vec<char>, i: usize) -> (r: Option<String>)
    requires
        i <= s.len(),
    ensures
        opt_view(r) == block_comment(s@, i as int),
{
    let ls = line_start_of(s, i);
    if ls > 0 && skip_run(s, ls, CharClass::Space) >= i {
        let ps = line_start_of(s, ls - 1);
        let prev = chars_between(s, ps, ls - 1);
        line_comment(&prev)
    } else {
        None
    }
}

impl ProtoParserCore {
    /// The messages and the enums of schema text. A name that comes twice keeps the
    /// place of its first block and the content of its last; a value literal that is
    /// no 32-bit integer fails the whole text.
    pub fn parse_proto(proto_content: &str) -> (r: Result<(Named<ProtoMessage>, Named<ProtoEnum>), String>)
        ensures
            schema_result(r) == schema(proto_content@),
    {
        let s = chars_of(proto_content);
        let mkw = vec!['m', 'e', 's', 's', 'a', 'g', 'e'];
        assert(mkw@ =~= message_kw());
        let ekw = vec!['e', 'n', 'u', 'm'];
        assert(ekw@ =~= enum_kw());
        let mut messages: Named<ProtoMessage> = Vec::new();
        let ghost mut found: Seq<Block> = seq![];
        let mut i: usize = 0;
        while i < s.len()
            invariant
                i <= s.len(),
                mkw@ == message_kw(),
                message_blocks(s@) == found + scan_blocks(s@, i as int, message_kw(), true),
                named_view(messages@) == build_messages(found),
            decreases s.len() - i,
        {
            match block_here(&s, i, &mkw, true) {
                Some((b, c, d, e)) => {
                    let name = string_between(&s, b, c);
                    let body = chars_between(&s, d, e);
                    let fields = fields_in(&body);
                    let comment = comment_above(&s, i);
                    let ghost blk = Block { name: name@, body: body@, comment: opt_view(comment) };
                    let m = ProtoMessage { fields, comment };
                    insert_named(&mut messages, name, m);
                    proof {
                        assert(found.push(blk).drop_last() =~= found);
                        assert(found + (seq![blk] + scan_blocks(s@, e + 1, message_kw(), true))
                            =~= found.push(blk) + scan_blocks(s@, e + 1, message_kw(), true));
                        found = found.push(blk);
                    }
                    i = e + 1;
                },
                None => {
                    i = i + 1;
                },
            }
        }
        assert(found + Seq::<Block>::empty() =~= found);
        let mut enums: Named<ProtoEnum> = Vec::new();
        assert(named_view(enums@) =~= Seq::<(Seq<char>, EnumView)>::empty());
        let ghost mut seen: Seq<Block> = seq![];
        let mut i: usize = 0;
        while i < s.len()
            invariant
                i <= s.len(),
                ekw@ == enum_kw(),
                s@ == proto_content@,
                named_view(messages@) == build_messages(message_blocks(s@)),
                enum_blocks(s@) == seen + scan_blocks(s@, i as int, enum_kw(), false),
                build_enums(seen) == Ok::<Seq<(Seq<char>, EnumView)>, Seq<char>>(named_view(enums@)),
            decreases s.len() - i,
        {
            match block_here(&s, i, &ekw, false) {
                Some((b, c, d, e)) => {
                    let name = string_between(&s, b, c);
                    let body = chars_between(&s, d, e);
                    let comment = comment_above(&s, i);
                    let ghost blk = Block { name: name@, body: body@, comment: opt_view(comment) };
                    proof {
                        assert(seen.push(blk).drop_last() =~= seen);
                        lemma_enums_stop(seen.push(blk), scan_blocks(s@, e + 1, enum_kw(), false));
                        assert(seen + (seq![blk] + scan_blocks(s@, e + 1, enum_kw(), false))
                            =~= seen.push(blk) + scan_blocks(s@, e + 1, enum_kw(), false));
                    }
                    match values_in(&body) {
                        Err(x) => {
                            assert(values_of_body(blk.body) == Err::<Seq<ValueView>, Seq<char>>(x@));
                            assert(build_enums(seen.push(blk)) == Err::<Seq<(Seq<char>, EnumView)>, Seq<char>>(x@));
                            assert(enum_blocks(s@) == seen.push(blk) + scan_blocks(s@, e + 1, enum_kw(), false));
                            return Err(x);
                        },
                        Ok(values) => {
                            insert_named(&mut enums, name, ProtoEnum { values, comment });
                            proof {
                                seen = seen.push(blk);
                            }
                        },
                    }
                    i = e + 1;
                },
                None => {
                    i = i + 1;
                },
            }
        }
        assert(seen + Seq::<Block>::empty() =~= seen);
        Ok((messages, enums))
    }

    /// The fields of a message body, in declaration order; a line that is no field
    /// declaration is passed over.
    pub fn parse_message_fields(body: &str) -> (r: Result<Vec<ProtoField>, String>)
        ensures
            r matches Ok(v) && fields_view(v@) == fields_of_body(body@),
    {
        let s = chars_of(body);
        Ok(fields_in(&s))
    }

    /// The values of an enum body, in declaration order, or an error naming the first
    /// literal that is no 32-bit integer.
    pub fn parse_enum_values(body: &str) -> (r: Result<Vec<ProtoEnumValue>, String>)
        ensures
            values_result(r) == values_of_body(body@),
    {
        let s = chars_of(body);
        values_in(&s)
    }
}

} // verus!
