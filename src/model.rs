use vstd::prelude::*;

verus! {

pub open spec fn opt_view(o: Option<String>) -> Option<Seq<char>> {
    match o {
        Some(s) => Some(s@),
        None => None,
    }
}

/// One member of a message, as declared.
#[derive(Debug, Clone)]
pub struct ProtoField {
    pub original_name: String,
    pub field_type: String,
    pub is_repeated: bool,
    pub comment: Option<String>,
}

pub struct FieldView {
    pub name: Seq<char>,
    pub field_type: Seq<char>,
    pub is_repeated: bool,
    pub comment: Option<Seq<char>>,
}

impl View for ProtoField {
    type V = FieldView;

    open spec fn view(&self) -> FieldView {
        FieldView {
            name: self.original_name@,
            field_type: self.field_type@,
            is_repeated: self.is_repeated,
            comment: opt_view(self.comment),
        }
    }
}

/// A message: its fields in declaration order, and the comment above it.
#[derive(Debug, Clone)]
pub struct ProtoMessage {
    pub fields: Vec<ProtoField>,
    pub comment: Option<String>,
}

pub struct MessageView {
    pub fields: Seq<FieldView>,
    pub comment: Option<Seq<char>>,
}

impl View for ProtoMessage {
    type V = MessageView;

    open spec fn view(&self) -> MessageView {
        MessageView {
            fields: self.fields@.map_values(|f: ProtoField| f@),
            comment: opt_view(self.comment),
        }
    }
}

/// One constant of an enum, as declared.
#[derive(Debug, Clone)]
pub struct ProtoEnumValue {
    pub name: String,
    pub value: i32,
    pub comment: Option<String>,
}

pub struct ValueView {
    pub name: Seq<char>,
    pub value: i32,
    pub comment: Option<Seq<char>>,
}

impl View for ProtoEnumValue {
    type V = ValueView;

    open spec fn view(&self) -> ValueView {
        ValueView { name: self.name@, value: self.value, comment: opt_view(self.comment) }
    }
}

/// An enum: its constants in declaration order, and the comment above it.
#[derive(Debug, Clone)]
pub struct ProtoEnum {
    pub values: Vec<ProtoEnumValue>,
    pub comment: Option<String>,
}

pub struct EnumView {
    pub values: Seq<ValueView>,
    pub comment: Option<Seq<char>>,
}

impl View for ProtoEnum {
    type V = EnumView;

    open spec fn view(&self) -> EnumView {
        EnumView {
            values: self.values@.map_values(|v: ProtoEnumValue| v@),
            comment: opt_view(self.comment),
        }
    }
}

/// Named definitions, in the order in which their names first appeared.
pub type Named<T> = Vec<(String, T)>;

pub open spec fn named_view<T: View>(v: Seq<(String, T)>) -> Seq<(Seq<char>, T::V)> {
    v.map_values(|e: (String, T)| (e.0@, e.1@))
}

/// The first index at or after `i` whose name is `k`, or -1.
pub open spec fn key_pos<V>(m: Seq<(Seq<char>, V)>, k: Seq<char>, i: int) -> int
    decreases m.len() - i,
{
    if i < 0 || i >= m.len() {
        -1
    } else if m[i].0 == k {
        i
    } else {
        key_pos(m, k, i + 1)
    }
}

/// Binds `k` to `v`: a name seen before keeps its place and takes the new value.
pub open spec fn upsert<V>(m: Seq<(Seq<char>, V)>, k: Seq<char>, v: V) -> Seq<(Seq<char>, V)> {
    let p = key_pos(m, k, 0);
    if p >= 0 {
        m.update(p, (k, v))
    } else {
        m.push((k, v))
    }
}

proof fn lemma_key_pos_range<V>(m: Seq<(Seq<char>, V)>, k: Seq<char>, i: int)
    requires
        0 <= i,
    ensures
        key_pos(m, k, i) == -1 || (i <= key_pos(m, k, i) < m.len() && m[key_pos(m, k, i)].0
            == k),
    decreases m.len() - i,
{
    if i < m.len() && m[i].0 != k {
        lemma_key_pos_range(m, k, i + 1);
    }
}

/// Binds `name` to `value` in `entries`, keeping the place of a name seen before.
pub fn insert_named<T: View>(entries: &mut Named<T>, name: String, value: T)
    ensures
        named_view(final(entries)@) == upsert(named_view(old(entries)@), name@, value@),
{
    let ghost m = named_view(entries@);
    let mut i: usize = 0;
    while i < entries.len()
        invariant
            i <= entries.len(),
            m == named_view(entries@),
            m == named_view(old(entries)@),
            key_pos(m, name@, i as int) == key_pos(m, name@, 0),
        decreases entries.len() - i,
    {
        if entries[i].0 == name {
            assert(m[i as int].0 == name@);
            assert(key_pos(m, name@, i as int) == i);
            entries.set(i, (name, value));
            assert(named_view(entries@) =~= upsert(m, name@, value@));
            return;
        }
        assert(m[i as int].0 != name@);
        i = i + 1;
    }
    proof {
        lemma_key_pos_range(m, name@, 0);
    }
    entries.push((name, value));
    assert(named_view(entries@) =~= upsert(m, name@, value@));
}

} // verus!
