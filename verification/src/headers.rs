//! Header fields as both sides of the translation see them.
//!
//! A field is a name with the values given under it, oldest first. A header
//! map is a sequence of fields in which no name occurs twice. The functions
//! here say what appending does to such a sequence, and in which order a map
//! hands its contents out.

use vstd::prelude::*;

verus! {

/// A name and the values under it.
pub type Field = (Seq<char>, Seq<Seq<u8>>);

/// The fields of a header map, in the map's order.
pub type Fields = Seq<Field>;

/// One step of a walk through a header map: a value, and the name it stands
/// under where the step is the first for that name.
pub type Item = (Option<Seq<char>>, Seq<u8>);

/// A header of the engine-agnostic messages: a name and its values in the
/// order in which they were given.
#[derive(Clone, Debug, PartialEq, Eq)]
pub struct Header {
    pub name: String,
    pub values: Vec<Vec<u8>>,
}

/// The byte strings that a vector of values holds.
pub open spec fn values_of(values: Seq<Vec<u8>>) -> Seq<Seq<u8>> {
    Seq::new(values.len(), |k: int| values[k]@)
}

impl View for Header {
    type V = Field;

    open spec fn view(&self) -> Field {
        (self.name@, values_of(self.values@))
    }
}

/// The fields that a vector of headers holds.
pub open spec fn fields_of(headers: Seq<Header>) -> Fields {
    Seq::new(headers.len(), |i: int| headers[i]@)
}

/// Whether some field carries `name`.
pub open spec fn has_name(fields: Fields, name: Seq<char>) -> bool {
    exists|i: int| 0 <= i < fields.len() && (#[trigger] fields[i]).0 == name
}

/// Whether no name occurs in two fields.
pub open spec fn distinct_names(fields: Fields) -> bool {
    forall|i: int, j: int|
        0 <= i < j < fields.len() ==> (#[trigger] fields[i]).0 != (#[trigger] fields[j]).0
}

/// `fields` after `value` was appended under `name`: the first field of that
/// name gains the value at its end; where there is none, a new field with
/// this one value comes last.
pub open spec fn appended(fields: Fields, name: Seq<char>, value: Seq<u8>) -> Fields
    decreases fields.len(),
{
    if fields.len() == 0 {
        seq![(name, seq![value])]
    } else if fields[0].0 == name {
        fields.update(0, (name, fields[0].1.push(value)))
    } else {
        seq![fields[0]] + appended(fields.skip(1), name, value)
    }
}

/// `fields` after each of `values` was appended under `name`, in order.
pub open spec fn appended_all(fields: Fields, name: Seq<char>, values: Seq<Seq<u8>>) -> Fields
    decreases values.len(),
{
    if values.len() == 0 {
        fields
    } else {
        appended(appended_all(fields, name, values.drop_last()), name, values.last())
    }
}

/// The fields that a walk shows: a step with a name opens a field with its
/// value, a step without one adds its value to the field that is open.
pub open spec fn regrouped(items: Seq<Item>) -> Fields
    decreases items.len(),
{
    if items.len() == 0 {
        Seq::empty()
    } else {
        let fields = regrouped(items.drop_last());
        match items.last().0 {
            Some(name) => fields.push((name, seq![items.last().1])),
            None => if fields.len() == 0 {
                fields
            } else {
                fields.update(
                    fields.len() - 1,
                    (fields.last().0, fields.last().1.push(items.last().1)),
                )
            },
        }
    }
}

/// The fields that have a value, in order.
pub open spec fn with_values(fields: Fields) -> Fields
    decreases fields.len(),
{
    if fields.len() == 0 {
        Seq::empty()
    } else if fields.last().1.len() > 0 {
        with_values(fields.drop_last()).push(fields.last())
    } else {
        with_values(fields.drop_last())
    }
}

/// `fields` with every name spelled by `spell`.
pub open spec fn renamed(fields: Fields, spell: spec_fn(Seq<char>) -> Seq<char>) -> Fields {
    Seq::new(fields.len(), |i: int| (spell(fields[i].0), fields[i].1))
}

/// The fields of a map that was empty, after every value of every field of
/// `fields` was appended under the name that `spell` gives it, in order.
pub open spec fn gathered(fields: Fields, spell: spec_fn(Seq<char>) -> Seq<char>) -> Fields
    decreases fields.len(),
{
    if fields.len() == 0 {
        Seq::empty()
    } else {
        appended_all(gathered(fields.drop_last(), spell), spell(fields.last().0), fields.last().1)
    }
}

/// The steps that one field contributes to a walk: its first value under
/// its name, every later value without a name.
pub open spec fn field_items(field: Field) -> Seq<Item> {
    Seq::new(
        field.1.len(),
        |k: int|
            (if k == 0 {
                Some(field.0)
            } else {
                None
            }, field.1[k]),
    )
}

/// The walk through `fields`: field after field, each with all its values.
pub open spec fn walk(fields: Fields) -> Seq<Item>
    decreases fields.len(),
{
    if fields.len() == 0 {
        Seq::empty()
    } else {
        walk(fields.drop_last()) + field_items(fields.last())
    }
}

/// Appending under a name that no field carries adds a field at the end.
pub proof fn lemma_appended_new(fields: Fields, name: Seq<char>, value: Seq<u8>)
    requires
        !has_name(fields, name),
    ensures
        appended(fields, name, value) == fields.push((name, seq![value])),
    decreases fields.len(),
{
    if fields.len() == 0 {
        assert(appended(fields, name, value) =~= fields.push((name, seq![value])));
    } else {
        assert(fields[0].0 != name);
        let rest = fields.skip(1);
        assert forall|i: int| 0 <= i < rest.len() implies (#[trigger] rest[i]).0 != name by {
            assert(rest[i] == fields[i + 1]);
        }
        lemma_appended_new(rest, name, value);
        assert(seq![fields[0]] + rest.push((name, seq![value])) =~= fields.push(
            (name, seq![value]),
        ));
    }
}

/// Appending under the name of field `at`, where no earlier field carries
/// it, adds the value at the end of that field and leaves the rest alone.
pub proof fn lemma_appended_at(fields: Fields, at: int, value: Seq<u8>)
    requires
        0 <= at < fields.len(),
        forall|i: int| 0 <= i < at ==> (#[trigger] fields[i]).0 != fields[at].0,
    ensures
        appended(fields, fields[at].0, value) == fields.update(
            at,
            (fields[at].0, fields[at].1.push(value)),
        ),
    decreases fields.len(),
{
    let name = fields[at].0;
    if at == 0 {
    } else {
        assert(fields[0].0 != name);
        let rest = fields.skip(1);
        assert(rest[at - 1] == fields[at]);
        assert forall|i: int| 0 <= i < at - 1 implies (#[trigger] rest[i]).0 != rest[at - 1].0 by {
            assert(rest[i] == fields[i + 1]);
        }
        lemma_appended_at(rest, at - 1, value);
        assert(seq![fields[0]] + rest.update(at - 1, (name, fields[at].1.push(value)))
            =~= fields.update(at, (name, fields[at].1.push(value))));
    }
}

/// Appending leaves the name in the map, and adds a field only where the
/// name was new.
pub proof fn lemma_appended_len(fields: Fields, name: Seq<char>, value: Seq<u8>)
    ensures
        has_name(appended(fields, name, value), name),
        appended(fields, name, value).len() == if has_name(fields, name) {
            fields.len()
        } else {
            fields.len() + 1
        },
    decreases fields.len(),
{
    let after = appended(fields, name, value);
    if fields.len() == 0 {
        assert(after[0].0 == name);
    } else if fields[0].0 == name {
        assert(after[0].0 == name);
    } else {
        let rest = fields.skip(1);
        lemma_appended_len(rest, name, value);
        let tail = appended(rest, name, value);
        let at = choose|i: int| 0 <= i < tail.len() && (#[trigger] tail[i]).0 == name;
        assert(after[at + 1] == tail[at]);
        if has_name(fields, name) {
            let i = choose|i: int| 0 <= i < fields.len() && (#[trigger] fields[i]).0 == name;
            assert(rest[i - 1] == fields[i]);
        }
        if has_name(rest, name) {
            let i = choose|i: int| 0 <= i < rest.len() && (#[trigger] rest[i]).0 == name;
            assert(fields[i + 1] == rest[i]);
        }
    }
}

/// Appending one value after another under a name that no field carries
/// adds one field at the end, with all the values in order.
pub proof fn lemma_appended_all_new(fields: Fields, name: Seq<char>, values: Seq<Seq<u8>>)
    requires
        !has_name(fields, name),
        values.len() > 0,
    ensures
        appended_all(fields, name, values) == fields.push((name, values)),
    decreases values.len(),
{
    let first = values.drop_last();
    if first.len() == 0 {
        assert(appended_all(fields, name, first) == fields);
        lemma_appended_new(fields, name, values.last());
        assert(seq![values.last()] =~= values);
    } else {
        lemma_appended_all_new(fields, name, first);
        let held = fields.push((name, first));
        assert forall|i: int| 0 <= i < fields.len() implies (#[trigger] held[i]).0
            != held[fields.len() as int].0 by {
            assert(held[i] == fields[i]);
        }
        lemma_appended_at(held, fields.len() as int, values.last());
        assert(first.push(values.last()) =~= values);
        assert(held.update(fields.len() as int, (name, values)) =~= fields.push((name, values)));
    }
}

/// Appending keeps every name in its place; a new name comes last.
pub proof fn lemma_appended_names(fields: Fields, name: Seq<char>, value: Seq<u8>)
    ensures
        forall|i: int|
            0 <= i < fields.len() ==> (#[trigger] appended(fields, name, value)[i]).0
                == fields[i].0,
        has_name(fields, name) || appended(fields, name, value).last().0 == name,
    decreases fields.len(),
{
    let after = appended(fields, name, value);
    if fields.len() == 0 {
    } else if fields[0].0 == name {
        assert(has_name(fields, name));
    } else {
        let rest = fields.skip(1);
        lemma_appended_names(rest, name, value);
        lemma_appended_len(rest, name, value);
        let tail = appended(rest, name, value);
        assert forall|i: int| 0 <= i < fields.len() implies (#[trigger] after[i]).0
            == fields[i].0 by {
            if i > 0 {
                assert(after[i] == tail[i - 1]);
                assert(rest[i - 1] == fields[i]);
            }
        }
        if has_name(rest, name) {
            let i = choose|i: int| 0 <= i < rest.len() && (#[trigger] rest[i]).0 == name;
            assert(fields[i + 1] == rest[i]);
        } else {
            assert(after.last() == tail.last());
        }
    }
}

/// Appending keeps the names distinct.
pub proof fn lemma_appended_distinct(fields: Fields, name: Seq<char>, value: Seq<u8>)
    requires
        distinct_names(fields),
    ensures
        distinct_names(appended(fields, name, value)),
{
    let after = appended(fields, name, value);
    lemma_appended_names(fields, name, value);
    lemma_appended_len(fields, name, value);
    assert forall|i: int, j: int| 0 <= i < j < after.len() implies (#[trigger] after[i]).0 != (
    #[trigger] after[j]).0 by {
        if j < fields.len() {
            assert(fields[i].0 != fields[j].0);
        } else {
            assert(!has_name(fields, name));
            assert(after[j] == after.last());
            assert(fields[i].0 != name);
        }
    }
}

/// Every field with a value is a field of the whole; the answer says where.
pub proof fn lemma_with_values_from(fields: Fields, at: int) -> (origin: int)
    requires
        0 <= at < with_values(fields).len(),
    ensures
        0 <= origin < fields.len(),
        fields[origin] == with_values(fields)[at],
    decreases fields.len(),
{
    let first = fields.drop_last();
    if fields.last().1.len() > 0 && at == with_values(first).len() {
        fields.len() - 1
    } else {
        let origin = lemma_with_values_from(first, at);
        assert(first[origin] == fields[origin]);
        origin
    }
}

/// Where every field has a value, the fields with a value are all of them.
pub proof fn lemma_with_values_all(fields: Fields)
    requires
        forall|i: int| 0 <= i < fields.len() ==> (#[trigger] fields[i]).1.len() > 0,
    ensures
        with_values(fields) == fields,
    decreases fields.len(),
{
    if fields.len() > 0 {
        let first = fields.drop_last();
        assert forall|i: int| 0 <= i < first.len() implies (#[trigger] first[i]).1.len() > 0 by {
            assert(first[i] == fields[i]);
        }
        lemma_with_values_all(first);
        assert(first.push(fields.last()) =~= fields);
    } else {
        assert(with_values(fields) =~= fields);
    }
}

/// What gathering leaves: where `spell` gives no two names of `fields` the
/// same spelling, the map holds one field for each name that has a value,
/// in the order given, under the name's spelling and with the same values in
/// the same order. A name without values leaves no field.
pub proof fn lemma_gathered(fields: Fields, spell: spec_fn(Seq<char>) -> Seq<char>)
    requires
        forall|i: int, j: int|
            0 <= i < j < fields.len() ==> spell((#[trigger] fields[i]).0) != spell(
                (#[trigger] fields[j]).0,
            ),
    ensures
        gathered(fields, spell) == renamed(with_values(fields), spell),
    decreases fields.len(),
{
    if fields.len() == 0 {
        assert(gathered(fields, spell) =~= renamed(with_values(fields), spell));
    } else {
        let first = fields.drop_last();
        let last = fields.last();
        let name = spell(last.0);
        assert forall|i: int, j: int| 0 <= i < j < first.len() implies spell(
            (#[trigger] first[i]).0,
        ) != spell((#[trigger] first[j]).0) by {
            assert(first[i] == fields[i]);
            assert(first[j] == fields[j]);
        }
        lemma_gathered(first, spell);
        let held = renamed(with_values(first), spell);
        if last.1.len() > 0 {
            assert(!has_name(held, name)) by {
                if has_name(held, name) {
                    let i = choose|i: int| 0 <= i < held.len() && (#[trigger] held[i]).0 == name;
                    let origin = lemma_with_values_from(first, i);
                    assert(first[origin] == fields[origin]);
                    assert(spell(fields[origin].0) == spell(fields[fields.len() - 1].0));
                }
            }
            lemma_appended_all_new(held, name, last.1);
            assert(held.push((name, last.1)) =~= renamed(with_values(fields), spell));
        }
    }
}

/// Adds `value` under `name`: at the end of the values of the first header
/// of that name, or in a new header that comes last.
pub fn append_header(headers: &mut Vec<Header>, name: &String, value: Vec<u8>)
    ensures
        fields_of(final(headers)@) == appended(fields_of(old(headers)@), name@, value@),
{
    let ghost before = fields_of(headers@);
    let mut at: usize = 0;
    while at < headers.len()
        invariant
            at <= headers.len(),
            before == fields_of(old(headers)@),
            fields_of(headers@) == before,
            forall|i: int| 0 <= i < at ==> (#[trigger] before[i]).0 != name@,
        decreases headers.len() - at,
    {
        if headers[at].name == *name {
            proof {
                assert(before[at as int] == headers@[at as int]@);
                lemma_appended_at(before, at as int, value@);
            }
            let mut header = headers.remove(at);
            let ghost held = header.values@;
            header.values.push(value);
            assert(values_of(header.values@) =~= values_of(held).push(value@));
            headers.insert(at, header);
            assert(fields_of(headers@) =~= before.update(
                at as int,
                (name@, before[at as int].1.push(value@)),
            ));
            return ;
        }
        assert(before[at as int] == headers@[at as int]@);
        at = at + 1;
    }
    let mut values: Vec<Vec<u8>> = Vec::new();
    values.push(value);
    proof {
        lemma_appended_new(before, name@, value@);
        assert(values_of(values@) =~= seq![value@]);
    }
    headers.push(Header { name: name.clone(), values });
    assert(fields_of(headers@) =~= before.push((name@, seq![value@])));
}

} // verus!
