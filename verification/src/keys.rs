use vstd::prelude::*;

use crate::types::{FieldPath, FieldValue, FieldValueV, PersistenceVersion};

verus! {

/// The eight big-endian bytes of a 64-bit value.
pub open spec fn be_bytes_u64(x: u64) -> Seq<u8> {
    seq![
        (x >> 56) as u8,
        (x >> 48) as u8,
        (x >> 40) as u8,
        (x >> 32) as u8,
        (x >> 24) as u8,
        (x >> 16) as u8,
        (x >> 8) as u8,
        x as u8,
    ]
}

/// The four big-endian bytes of a 32-bit value.
pub open spec fn be_bytes_u32(x: u32) -> Seq<u8> {
    seq![(x >> 24) as u8, (x >> 16) as u8, (x >> 8) as u8, x as u8]
}

/// The characters of a text, each written as four big-endian bytes.
pub open spec fn encoded_chars(s: Seq<char>) -> Seq<u8>
    decreases s.len(),
{
    if s.len() == 0 {
        Seq::empty()
    } else {
        be_bytes_u32(s[0] as u32) + encoded_chars(s.drop_first())
    }
}

/// The encoding of a text: its length, then its characters.
pub open spec fn encoded_text(s: Seq<char>) -> Seq<u8> {
    be_bytes_u64(s.len() as u64) + encoded_chars(s)
}

/// The encoding of one field position of an index key. A missing field and
/// each kind of value start with a distinct tag byte.
pub open spec fn encoded_field_value(v: Option<FieldValueV>) -> Seq<u8> {
    match v {
        Option::None => seq![0u8],
        Option::Some(FieldValueV::Null) => seq![1u8],
        Option::Some(FieldValueV::Boolean(false)) => seq![2u8],
        Option::Some(FieldValueV::Boolean(true)) => seq![3u8],
        Option::Some(FieldValueV::Integer(i)) => seq![4u8] + be_bytes_u64(i as u64),
        Option::Some(FieldValueV::Text(s)) => seq![5u8] + encoded_text(s),
    }
}

/// The field positions of an index key, encoded one after the other.
pub open spec fn encoded_values(vals: Seq<Option<FieldValueV>>) -> Seq<u8>
    decreases vals.len(),
{
    if vals.len() == 0 {
        Seq::empty()
    } else {
        encoded_field_value(vals[0]) + encoded_values(vals.drop_first())
    }
}

/// The ordered key bytes of a projected key: the persistence version, then
/// the projected field values.
pub open spec fn encoded_key(vals: Seq<Option<FieldValueV>>, version: PersistenceVersion) -> Seq<
    u8,
> {
    be_bytes_u64(version) + encoded_values(vals)
}

/// The search-filter encoding of the value at a filter field. It tags the
/// presence of the value, then uses the same value encoding as ordered keys.
pub open spec fn encoded_filter_value(v: Option<FieldValueV>) -> Seq<u8> {
    match v {
        Option::None => seq![0u8],
        Option::Some(fv) => seq![1u8] + encoded_field_value(Some(fv)),
    }
}

proof fn lemma_encoded_chars_snoc(s: Seq<char>, c: char)
    ensures
        encoded_chars(s.push(c)) == encoded_chars(s) + be_bytes_u32(c as u32),
    decreases s.len(),
{
    let t = s.push(c);
    assert(t.len() == s.len() + 1);
    if s.len() == 0 {
        assert(t[0] == c);
        assert(t.drop_first() =~= Seq::<char>::empty());
        assert(encoded_chars(t.drop_first()) == Seq::<u8>::empty());
        assert(encoded_chars(t) == be_bytes_u32(c as u32) + encoded_chars(t.drop_first()));
        assert(encoded_chars(t) =~= encoded_chars(s) + be_bytes_u32(c as u32));
    } else {
        assert(t[0] == s[0]);
        assert(t.drop_first() =~= s.drop_first().push(c));
        lemma_encoded_chars_snoc(s.drop_first(), c);
        assert(encoded_chars(t) == be_bytes_u32(s[0] as u32) + (encoded_chars(s.drop_first())
            + be_bytes_u32(c as u32)));
        assert(encoded_chars(t) =~= encoded_chars(s) + be_bytes_u32(c as u32));
    }
}

proof fn lemma_encoded_values_snoc(vals: Seq<Option<FieldValueV>>, v: Option<FieldValueV>)
    ensures
        encoded_values(vals.push(v)) == encoded_values(vals) + encoded_field_value(v),
    decreases vals.len(),
{
    let t = vals.push(v);
    assert(t.len() == vals.len() + 1);
    if vals.len() == 0 {
        assert(t[0] == v);
        assert(t.drop_first() =~= Seq::<Option<FieldValueV>>::empty());
        assert(encoded_values(t.drop_first()) == Seq::<u8>::empty());
        assert(encoded_values(t) == encoded_field_value(v) + encoded_values(t.drop_first()));
        assert(encoded_values(t) =~= encoded_values(vals) + encoded_field_value(v));
    } else {
        assert(t[0] == vals[0]);
        assert(t.drop_first() =~= vals.drop_first().push(v));
        lemma_encoded_values_snoc(vals.drop_first(), v);
        assert(encoded_values(t) == encoded_field_value(vals[0]) + (encoded_values(
            vals.drop_first(),
        ) + encoded_field_value(v)));
        assert(encoded_values(t) =~= encoded_values(vals) + encoded_field_value(v));
    }
}

fn push_be_u64(out: &mut Vec<u8>, x: u64)
    ensures
        final(out)@ == old(out)@ + be_bytes_u64(x),
{
    out.push((x >> 56) as u8);
    out.push((x >> 48) as u8);
    out.push((x >> 40) as u8);
    out.push((x >> 32) as u8);
    out.push((x >> 24) as u8);
    out.push((x >> 16) as u8);
    out.push((x >> 8) as u8);
    out.push(x as u8);
    proof {
        assert(final(out)@ =~= old(out)@ + be_bytes_u64(x));
    }
}

fn push_be_u32(out: &mut Vec<u8>, x: u32)
    ensures
        final(out)@ == old(out)@ + be_bytes_u32(x),
{
    out.push((x >> 24) as u8);
    out.push((x >> 16) as u8);
    out.push((x >> 8) as u8);
    out.push(x as u8);
    proof {
        assert(final(out)@ =~= old(out)@ + be_bytes_u32(x));
    }
}

fn push_text(out: &mut Vec<u8>, s: &String)
    ensures
        final(out)@ == old(out)@ + encoded_text(s@),
{
    let text = s.as_str();
    let len = text.unicode_len();
    push_be_u64(out, len as u64);
    let mut i: usize = 0;
    proof {
        assert(s@.take(0) =~= Seq::<char>::empty());
        assert(encoded_chars(s@.take(0)) =~= Seq::<u8>::empty());
        assert(out@ =~= old(out)@ + be_bytes_u64(s@.len() as u64) + encoded_chars(s@.take(0)));
    }
    while i < len
        invariant
            0 <= i <= len,
            len as nat == s@.len(),
            text@ == s@,
            out@ == old(out)@ + be_bytes_u64(s@.len() as u64) + encoded_chars(s@.take(i as int)),
        decreases len - i,
    {
        let c = text.get_char(i);
        push_be_u32(out, c as u32);
        proof {
            lemma_encoded_chars_snoc(s@.take(i as int), c);
            assert(s@.take(i as int).push(c) =~= s@.take(i as int + 1));
            assert(out@ =~= old(out)@ + be_bytes_u64(s@.len() as u64) + encoded_chars(
                s@.take(i as int + 1),
            ));
        }
        i = i + 1;
    }
    proof {
        assert(s@.take(len as int) =~= s@);
        assert(out@ =~= old(out)@ + encoded_text(s@));
    }
}

fn push_field_value(out: &mut Vec<u8>, v: Option<&FieldValue>)
    ensures
        final(out)@ == old(out)@ + encoded_field_value(match v {
            Option::Some(fv) => Some(fv@),
            Option::None => None,
        }),
{
    match v {
        None => {
            out.push(0u8);
            proof {
                assert(out@ =~= old(out)@ + seq![0u8]);
            }
        },
        Some(FieldValue::Null) => {
            out.push(1u8);
            proof {
                assert(out@ =~= old(out)@ + seq![1u8]);
            }
        },
        Some(FieldValue::Boolean(b)) => {
            if *b {
                out.push(3u8);
                proof {
                    assert(out@ =~= old(out)@ + seq![3u8]);
                }
            } else {
                out.push(2u8);
                proof {
                    assert(out@ =~= old(out)@ + seq![2u8]);
                }
            }
        },
        Some(FieldValue::Integer(i)) => {
            out.push(4u8);
            push_be_u64(out, *i as u64);
            proof {
                assert(out@ =~= old(out)@ + (seq![4u8] + be_bytes_u64(*i as u64)));
            }
        },
        Some(FieldValue::Text(s)) => {
            out.push(5u8);
            push_text(out, s);
            proof {
                assert(out@ =~= old(out)@ + (seq![5u8] + encoded_text(s@)));
            }
        },
    }
}

/// An ordered index key before byte encoding: the value projected at each
/// indexed field (`None` where the document has no such field), together with
/// the persistence version its bytes will be written under.
#[derive(Clone, Debug, PartialEq, Eq)]
pub struct IndexKey {
    pub values: Vec<Option<FieldValue>>,
    pub persistence_version: PersistenceVersion,
}

/// Ghost form of an ordered index key.
pub ghost struct IndexKeyV {
    pub values: Seq<Option<FieldValueV>>,
    pub persistence_version: PersistenceVersion,
}

impl View for IndexKey {
    type V = IndexKeyV;

    open spec fn view(&self) -> IndexKeyV {
        IndexKeyV { values: self.values.deep_view(), persistence_version: self.persistence_version }
    }
}

/// The byte form of an ordered index key, usable for range scans.
#[derive(Clone, Debug, PartialEq, Eq)]
pub struct IndexKeyBytes {
    pub bytes: Vec<u8>,
}

impl View for IndexKeyBytes {
    type V = Seq<u8>;

    open spec fn view(&self) -> Seq<u8> {
        self.bytes@
    }
}

impl IndexKey {
    /// Encodes this key into its ordered byte form.
    pub fn to_bytes(&self) -> (r: IndexKeyBytes)
        ensures
            r@ == encoded_key(self@.values, self.persistence_version),
    {
        let mut out: Vec<u8> = Vec::new();
        push_be_u64(&mut out, self.persistence_version);
        let mut i: usize = 0;
        proof {
            assert(self@.values.take(0) =~= Seq::<Option<FieldValueV>>::empty());
            assert(encoded_values(self@.values.take(0)) =~= Seq::<u8>::empty());
            assert(out@ =~= be_bytes_u64(self.persistence_version) + encoded_values(
                self@.values.take(0),
            ));
        }
        while i < self.values.len()
            invariant
                0 <= i <= self.values.len(),
                self@.values.len() == self.values.len(),
                self@.values == self.values.deep_view(),
                out@ == be_bytes_u64(self.persistence_version) + encoded_values(
                    self@.values.take(i as int),
                ),
            decreases self.values.len() - i,
        {
            push_field_value(&mut out, self.values[i].as_ref());
            proof {
                assert(self.values[i as int].deep_view() == self@.values[i as int]);
                lemma_encoded_values_snoc(self@.values.take(i as int), self@.values[i as int]);
                assert(self@.values.take(i as int).push(self@.values[i as int]) =~= self@.values.take(
                    i as int + 1,
                ));
            }
            i = i + 1;
        }
        proof {
            assert(self@.values.take(self.values.len() as int) =~= self@.values);
        }
        IndexKeyBytes { bytes: out }
    }
}

/// The value at a filter field of a text index, in its search-filter
/// encoding.
#[derive(Clone, Debug, PartialEq, Eq)]
pub struct SearchFilterValue {
    pub bytes: Vec<u8>,
}

impl View for SearchFilterValue {
    type V = Seq<u8>;

    open spec fn view(&self) -> Seq<u8> {
        self.bytes@
    }
}

impl DeepView for SearchFilterValue {
    type V = Seq<u8>;

    open spec fn deep_view(&self) -> Seq<u8> {
        self.view()
    }
}

impl SearchFilterValue {
    /// Encodes the value found at a filter field (or its absence).
    pub fn from_search_value(v: Option<&FieldValue>) -> (r: Self)
        ensures
            r@ == encoded_filter_value(match v {
                Option::Some(fv) => Some(fv@),
                Option::None => None,
            }),
    {
        let mut out: Vec<u8> = Vec::new();
        match v {
            None => {
                out.push(0u8);
                proof {
                    assert(out@ =~= seq![0u8]);
                }
            },
            Some(fv) => {
                out.push(1u8);
                push_field_value(&mut out, Some(fv));
                proof {
                    assert(out@ =~= seq![1u8] + encoded_field_value(Some(fv@)));
                }
            },
        }
        SearchFilterValue { bytes: out }
    }
}

/// The value a document holds at a field path: the value of its first field
/// with that path, if any.
pub open spec fn get_path_spec(fields: Seq<(Seq<char>, FieldValueV)>, path: Seq<char>) -> Option<
    FieldValueV,
>
    decreases fields.len(),
{
    if fields.len() == 0 {
        None
    } else if fields[0].0 == path {
        Some(fields[0].1)
    } else {
        get_path_spec(fields.drop_first(), path)
    }
}

/// The projection of a document onto a list of indexed fields: the value at
/// each field in order, `None` where the document has none.
pub open spec fn project_spec(
    fields: Seq<(Seq<char>, FieldValueV)>,
    field_list: Seq<Seq<char>>,
) -> Seq<Option<FieldValueV>> {
    Seq::new(field_list.len(), |i: int| get_path_spec(fields, field_list[i]))
}

/// Looks a field path up in a document's field list, returning the value of
/// the first field with that path.
pub fn get_path_exec<'a>(fields: &'a Vec<(FieldPath, FieldValue)>, path: &FieldPath) -> (r: Option<
    &'a FieldValue,
>)
    ensures
        match r {
            Some(v) => get_path_spec(fields.deep_view(), path@) == Some(v@),
            None => get_path_spec(fields.deep_view(), path@) is None,
        },
{
    let ghost fv = fields.deep_view();
    let mut i: usize = 0;
    proof {
        assert(fv.skip(0) =~= fv);
    }
    while i < fields.len()
        invariant
            0 <= i <= fields.len(),
            fv == fields.deep_view(),
            fv.len() == fields.len(),
            get_path_spec(fv, path@) == get_path_spec(fv.skip(i as int), path@),
        decreases fields.len() - i,
    {
        proof {
            assert(fv.skip(i as int)[0] == fields[i as int].deep_view());
            assert(fv.skip(i as int).drop_first() =~= fv.skip(i as int + 1));
        }
        if fields[i].0 == *path {
            return Some(&fields[i].1);
        }
        i = i + 1;
    }
    proof {
        assert(fv.skip(i as int) =~= Seq::<(Seq<char>, FieldValueV)>::empty());
    }
    None
}

} // verus!
