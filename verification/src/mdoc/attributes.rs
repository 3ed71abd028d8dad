//! The attributes that a response discloses, grouped by namespace.
use crate::cbor::{
    integer_label, integer_of, lemma_array_content, lemma_pairs_content, pair_contents, Cbor,
    CborValue,
};
use crate::mdoc::failure::VerifyFailure;
use crate::text::copy_bytes;
use crate::text_map::{
    first_entry, has_key, key_at, key_index, lemma_entry_has_key, lemma_key_index, TextMap,
};
use crate::types::{attr_map, lemma_fields_content, Attr, AttributeValue, ReasonCode};
use vstd::prelude::*;

verus! {

/// The attribute that a CBOR item is presented as. A tag is looked through; a map keeps its
/// text-keyed entries, the last of each key; what has no counterpart is presented as null.
pub open spec fn attr_of(value: Cbor) -> Attr
    decreases value,
{
    match value {
        Cbor::Text(t) => Attr::Text(t),
        Cbor::Integer(_) => match integer_of(value) {
            Some(i) => Attr::Integer(i),
            None => Attr::Null,
        },
        Cbor::Bool(b) => Attr::Boolean(b),
        Cbor::Bytes(b) => Attr::Bytes(b),
        Cbor::Array(items) => Attr::Array(
            Seq::new(
                items.len(),
                |i: int| if 0 <= i < items.len() { attr_of(items[i]) } else { Attr::Null },
            ),
        ),
        Cbor::Pairs(entries) => Attr::Fields(fields_of(entries)),
        Cbor::Tag(_, inner) => attr_of(*inner),
        Cbor::Float(_) => Attr::Null,
        Cbor::Null => Attr::Null,
    }
}

/// The fields that the entries of a map item are presented as.
pub open spec fn fields_of(entries: Seq<(Cbor, Cbor)>) -> Map<Seq<char>, Attr>
    decreases entries,
{
    if entries.len() == 0 {
        Map::empty()
    } else {
        let before = fields_of(entries.drop_last());
        match entries.last().0 {
            Cbor::Text(key) => before.insert(key, attr_of(entries[entries.len() - 1].1)),
            _ => before,
        }
    }
}

/// Present a CBOR item as an attribute.
pub fn cbor_to_attribute(value: &CborValue) -> (out: AttributeValue)
    ensures
        out@ == attr_of(value@),
    decreases value,
{
    match value {
        CborValue::Text(t) => AttributeValue::Text(t.clone()),
        CborValue::Integer(_) => match integer_label(value) {
            Some(i) => AttributeValue::Integer(i),
            None => AttributeValue::Null,
        },
        CborValue::Bool(b) => AttributeValue::Boolean(*b),
        CborValue::Bytes(b) => AttributeValue::Bytes(copy_bytes(b)),
        CborValue::Array(items) => {
            proof {
                lemma_array_content(*items);
            }
            let mut out: Vec<AttributeValue> = Vec::new();
            let mut i: usize = 0;
            while i < items.len()
                invariant
                    i <= items@.len(),
                    out@.len() == i,
                    forall|j: int| 0 <= j < i ==> (#[trigger] out@[j])@ == attr_of(items@[j]@),
                    decreases_to!(value => items),
                decreases items@.len() - i,
            {
                out.push(cbor_to_attribute(&items[i]));
                i += 1;
            }
            let array = AttributeValue::Array(out);
            assert(array@->Array_0 =~= attr_of(value@)->Array_0);
            array
        },
        CborValue::Pairs(entries) => {
            proof {
                lemma_pairs_content(*entries);
            }
            let ghost all = pair_contents(entries@);
            let mut map: TextMap<AttributeValue> = TextMap::new();
            let mut i: usize = 0;
            assert(attr_map(map@) =~= fields_of(all.take(0)));
            while i < entries.len()
                invariant
                    i <= entries@.len(),
                    all == pair_contents(entries@),
                    attr_map(map@) == fields_of(all.take(i as int)),
                    decreases_to!(value => entries),
                decreases entries@.len() - i,
            {
                let ghost next = all.take(i as int + 1);
                assert(next.drop_last() =~= all.take(i as int));
                assert(next.last() == (entries@[i as int].0@, entries@[i as int].1@));
                if let CborValue::Text(key) = &entries[i].0 {
                    assert(next.last().0 == Cbor::Text(key@));
                    let field = cbor_to_attribute(&entries[i].1);
                    assert(attr_map(map@.insert(key@, field)) =~= attr_map(map@).insert(
                        key@,
                        field@,
                    ));
                    map.insert(key.clone(), field);
                }
                i += 1;
            }
            assert(all.take(all.len() as int) =~= all);
            proof {
                lemma_fields_content(map);
            }
            AttributeValue::Fields(map)
        },
        CborValue::Tag(_, inner) => cbor_to_attribute(&**inner),
        _ => AttributeValue::Null,
    }
}

/// Disclosed attributes: by namespace, then by element identifier.
pub type DisclosedByNamespace = TextMap<TextMap<AttributeValue>>;

/// The content of disclosed attributes.
pub open spec fn disclosed_content(map: Map<Seq<char>, TextMap<AttributeValue>>) -> Map<
    Seq<char>,
    Map<Seq<char>, Attr>,
> {
    map.map_values(|fields: TextMap<AttributeValue>| attr_map(fields@))
}

/// The fields of a namespace, none where it is absent.
pub open spec fn space(
    disclosed: Map<Seq<char>, Map<Seq<char>, Attr>>,
    name_space: Seq<char>,
) -> Map<Seq<char>, Attr> {
    if disclosed.contains_key(name_space) {
        disclosed[name_space]
    } else {
        Map::empty()
    }
}

/// Whether `value` would replace another value of the same element.
pub open spec fn shadows(
    disclosed: Map<Seq<char>, Map<Seq<char>, Attr>>,
    name_space: Seq<char>,
    identifier: Seq<char>,
    value: Attr,
) -> bool {
    let fields = space(disclosed, name_space);
    fields.contains_key(identifier) && fields[identifier] != value
}

/// The disclosed attributes with one more element.
pub open spec fn disclose(
    disclosed: Map<Seq<char>, Map<Seq<char>, Attr>>,
    name_space: Seq<char>,
    identifier: Seq<char>,
    value: Attr,
) -> Map<Seq<char>, Map<Seq<char>, Attr>> {
    disclosed.insert(name_space, space(disclosed, name_space).insert(identifier, value))
}

/// Disclose an element. One that would replace another value of the same element is refused.
pub fn insert_no_shadow(
    map: &mut DisclosedByNamespace,
    namespace: &str,
    identifier: String,
    value: AttributeValue,
) -> (out: Result<(), VerifyFailure>)
    ensures
        ({
            let before = disclosed_content(old(map)@);
            let after = disclosed_content(final(map)@);
            if shadows(before, namespace@, identifier@, value@) {
                &&& out == Err::<(), VerifyFailure>(
                    VerifyFailure { reason: ReasonCode::DisclosureIntegrity },
                )
                &&& after == before
            } else {
                &&& out == Ok::<(), VerifyFailure>(())
                &&& after == disclose(before, namespace@, identifier@, value@)
            }
        }),
{
    let ghost before = disclosed_content(map@);
    let ghost rest = map@.remove(namespace@);
    let mut fields: TextMap<AttributeValue> = match map.remove(namespace) {
        Some(fields) => fields,
        None => TextMap::new(),
    };
    assert(attr_map(fields@) =~= space(before, namespace@));
    let conflict = match fields.get(identifier.as_str()) {
        Some(existing) => !existing.same(&value),
        None => false,
    };
    if conflict {
        assert(disclosed_content(rest.insert(namespace@, fields)) =~= before);
        map.insert(namespace.to_owned(), fields);
        return Err(VerifyFailure::with_reason(ReasonCode::DisclosureIntegrity));
    }
    let ghost grown = fields@.insert(identifier@, value);
    assert(attr_map(grown) =~= attr_map(fields@).insert(identifier@, value@));
    fields.insert(identifier, value);
    assert(disclosed_content(rest.insert(namespace@, fields)) =~= disclose(
        before,
        namespace@,
        identifier@,
        value@,
    ));
    map.insert(namespace.to_owned(), fields);
    Ok(())
}

/// Whether some element of `fields` has another value in the namespace already.
pub open spec fn space_clash(
    disclosed: Map<Seq<char>, Map<Seq<char>, Attr>>,
    name_space: Seq<char>,
    fields: Map<Seq<char>, Attr>,
) -> bool {
    exists|id: Seq<char>|
        #[trigger] fields.contains_key(id) && shadows(disclosed, name_space, id, fields[id])
}

/// The disclosed attributes with the elements of one namespace added.
pub open spec fn with_space(
    disclosed: Map<Seq<char>, Map<Seq<char>, Attr>>,
    name_space: Seq<char>,
    fields: Map<Seq<char>, Attr>,
) -> Map<Seq<char>, Map<Seq<char>, Attr>> {
    if fields == Map::<Seq<char>, Attr>::empty() {
        disclosed
    } else {
        disclosed.insert(name_space, space(disclosed, name_space).union_prefer_right(fields))
    }
}

/// The elements of `fields` whose identifiers are among the first `n` entries of a list.
spec fn first_fields(
    entries: Seq<(String, AttributeValue)>,
    n: int,
    fields: Map<Seq<char>, Attr>,
) -> Map<Seq<char>, Attr> {
    Map::new(
        |id: Seq<char>|
            fields.contains_key(id) && exists|j: int|
                0 <= j < n && (#[trigger] entries[j]).0@ == id,
        |id: Seq<char>| fields[id],
    )
}

/// Disclose every element of one namespace.
fn merge_space(map: &mut DisclosedByNamespace, namespace: &str, fields: &TextMap<AttributeValue>) -> (out: Result<(), VerifyFailure>)
    ensures
        ({
            let before = disclosed_content(old(map)@);
            if space_clash(before, namespace@, attr_map(fields@)) {
                out == Err::<(), VerifyFailure>(
                    VerifyFailure { reason: ReasonCode::DisclosureIntegrity },
                )
            } else {
                &&& out == Ok::<(), VerifyFailure>(())
                &&& disclosed_content(final(map)@) == with_space(
                    before,
                    namespace@,
                    attr_map(fields@),
                )
            }
        }),
{
    let ghost before = disclosed_content(map@);
    let ghost all = attr_map(fields@);
    let ghost entries = fields.entries@;
    let mut i: usize = 0;
    assert(first_fields(entries, 0, all) =~= Map::<Seq<char>, Attr>::empty());
    while i < fields.entries.len()
        invariant
            i <= fields.entries@.len(),
            all == attr_map(fields@),
            entries == fields.entries@,
            before == disclosed_content(old(map)@),
            disclosed_content(map@) == with_space(
                before,
                namespace@,
                first_fields(entries, i as int, all),
            ),
            !space_clash(before, namespace@, first_fields(entries, i as int, all)),
        decreases fields.entries@.len() - i,
    {
        let ghost id = entries[i as int].0@;
        let ghost done = first_fields(entries, i as int, all);
        let ghost next = first_fields(entries, i as int + 1, all);
        proof {
            lemma_entry_has_key(entries, i as int);
            assert(all.contains_key(id));
            assert(next =~= done.insert(id, all[id])) by {
                assert(entries[i as int].0@ == id);
                assert forall|k: Seq<char>| next.contains_key(k) == done.insert(
                    id,
                    all[id],
                ).contains_key(k) by {
                    if done.contains_key(k) {
                        let j = choose|j: int| 0 <= j < i && (#[trigger] entries[j]).0@ == k;
                        assert(entries[j].0@ == k);
                    }
                    if next.contains_key(k) && k != id {
                        let j = choose|j: int| 0 <= j < i + 1 && (#[trigger] entries[j]).0@ == k;
                        assert(entries[j].0@ == k);
                    }
                }
            }
            assert(space(disclosed_content(map@), namespace@) =~= space(
                before,
                namespace@,
            ).union_prefer_right(done));
            assert(next.contains_key(id));
        }
        let at: usize = first_entry(fields, i);
        let value = fields.entries[at].1.copy();
        assert(value@ == all[id]);
        match insert_no_shadow(map, namespace, fields.entries[i].0.clone(), value) {
            Ok(_) => {
                proof {
                    assert forall|k: Seq<char>| #[trigger] next.contains_key(k) implies !shadows(
                        before,
                        namespace@,
                        k,
                        next[k],
                    ) by {
                        if k == id && !done.contains_key(id) {
                        } else {
                            assert(done.contains_key(k));
                        }
                    }
                    assert(with_space(before, namespace@, done).insert(
                        namespace@,
                        space(before, namespace@).union_prefer_right(done).insert(id, all[id]),
                    ) =~= with_space(before, namespace@, next)) by {
                        assert(space(before, namespace@).union_prefer_right(done).insert(
                            id,
                            all[id],
                        ) =~= space(before, namespace@).union_prefer_right(next));
                        assert(next != Map::<Seq<char>, Attr>::empty());
                    }
                }
            },
            Err(failure) => {
                proof {
                    if done.contains_key(id) {
                        assert(space(before, namespace@).union_prefer_right(done)[id] == all[id]);
                    }
                    assert(shadows(before, namespace@, id, all[id]));
                    assert(all.contains_key(id) && shadows(before, namespace@, id, all[id]));
                }
                return Err(failure);
            },
        }
        i += 1;
    }
    proof {
        assert forall|k: Seq<char>| all.contains_key(k) implies exists|j: int|
            0 <= j < i && (#[trigger] entries[j]).0@ == k by {
            let j = key_index(entries, k);
            assert(key_at(entries, k, j));
            assert(entries[j].0@ == k);
        }
        assert(first_fields(entries, i as int, all) =~= all);
    }
    Ok(())
}

/// Whether some element of `document` has another value among the disclosed attributes already.
pub open spec fn clash(
    disclosed: Map<Seq<char>, Map<Seq<char>, Attr>>,
    document: Map<Seq<char>, Map<Seq<char>, Attr>>,
) -> bool {
    exists|name_space: Seq<char>|
        #[trigger] document.contains_key(name_space) && space_clash(
            disclosed,
            name_space,
            document[name_space],
        )
}

/// The disclosed attributes together with those of a document.
pub open spec fn merged(
    disclosed: Map<Seq<char>, Map<Seq<char>, Attr>>,
    document: Map<Seq<char>, Map<Seq<char>, Attr>>,
) -> Map<Seq<char>, Map<Seq<char>, Attr>> {
    Map::new(
        |name_space: Seq<char>|
            disclosed.contains_key(name_space) || space(document, name_space) != Map::<
                Seq<char>,
                Attr,
            >::empty(),
        |name_space: Seq<char>|
            space(disclosed, name_space).union_prefer_right(space(document, name_space)),
    )
}

/// The namespaces of `document` whose names are among the first `n` entries of a list.
spec fn first_spaces(
    entries: Seq<(String, TextMap<AttributeValue>)>,
    n: int,
    document: Map<Seq<char>, Map<Seq<char>, Attr>>,
) -> Map<Seq<char>, Map<Seq<char>, Attr>> {
    Map::new(
        |name: Seq<char>|
            document.contains_key(name) && exists|j: int|
                0 <= j < n && (#[trigger] entries[j]).0@ == name,
        |name: Seq<char>| document[name],
    )
}

/// Disclose every element of a document. One that would replace another value of the same element
/// is refused.
pub fn merge_disclosed(map: &mut DisclosedByNamespace, document: &DisclosedByNamespace) -> (out:
    Result<(), VerifyFailure>)
    ensures
        ({
            let before = disclosed_content(old(map)@);
            let added = disclosed_content(document@);
            if clash(before, added) {
                out == Err::<(), VerifyFailure>(
                    VerifyFailure { reason: ReasonCode::DisclosureIntegrity },
                )
            } else {
                &&& out == Ok::<(), VerifyFailure>(())
                &&& disclosed_content(final(map)@) == merged(before, added)
            }
        }),
{
    let ghost before = disclosed_content(map@);
    let ghost all = disclosed_content(document@);
    let ghost entries = document.entries@;
    let mut i: usize = 0;
    assert(merged(before, first_spaces(entries, 0, all)) =~= before) by {
        assert forall|name: Seq<char>| #[trigger] space(before, name).union_prefer_right(
            Map::<Seq<char>, Attr>::empty(),
        ) =~= space(before, name) by {}
        assert forall|name: Seq<char>| before.contains_key(name) implies #[trigger] merged(
            before,
            first_spaces(entries, 0, all),
        )[name] == before[name] by {
            assert(space(before, name).union_prefer_right(Map::<Seq<char>, Attr>::empty())
                =~= before[name]);
        }
    }
    while i < document.entries.len()
        invariant
            i <= document.entries@.len(),
            all == disclosed_content(document@),
            entries == document.entries@,
            before == disclosed_content(old(map)@),
            disclosed_content(map@) == merged(before, first_spaces(entries, i as int, all)),
            !clash(before, first_spaces(entries, i as int, all)),
        decreases document.entries@.len() - i,
    {
        let ghost name = entries[i as int].0@;
        let ghost done = first_spaces(entries, i as int, all);
        let ghost next = first_spaces(entries, i as int + 1, all);
        let ghost here = disclosed_content(map@);
        proof {
            lemma_entry_has_key(entries, i as int);
            assert(all.contains_key(name));
            assert(next =~= done.insert(name, all[name])) by {
                assert(entries[i as int].0@ == name);
                assert forall|k: Seq<char>| next.contains_key(k) == done.insert(
                    name,
                    all[name],
                ).contains_key(k) by {
                    if done.contains_key(k) {
                        let j = choose|j: int| 0 <= j < i && (#[trigger] entries[j]).0@ == k;
                        assert(entries[j].0@ == k);
                    }
                    if next.contains_key(k) && k != name {
                        let j = choose|j: int| 0 <= j < i + 1 && (#[trigger] entries[j]).0@ == k;
                        assert(entries[j].0@ == k);
                    }
                }
            }
            assert(space(here, name) =~= space(before, name).union_prefer_right(space(done, name)));
        }
        let at: usize = first_entry(document, i);
        let fields = &document.entries[at].1;
        assert(attr_map(fields@) == all[name]);
        match merge_space(map, document.entries[i].0.as_str(), fields) {
            Ok(_) => {
                proof {
                    assert forall|k: Seq<char>| #[trigger] next.contains_key(k) implies !space_clash(
                        before,
                        k,
                        next[k],
                    ) by {
                        if k == name && !done.contains_key(name) {
                            assert(space(here, name) =~= space(before, name));
                            assert forall|id: Seq<char>| #[trigger]
                                next[k].contains_key(id) implies !shadows(
                                before,
                                k,
                                id,
                                next[k][id],
                            ) by {
                                assert(all[name].contains_key(id));
                                assert(!shadows(here, name, id, all[name][id]));
                            }
                        } else {
                            assert(done.contains_key(k));
                        }
                    }
                    assert(with_space(here, name, all[name]) =~= merged(before, next)) by {
                        let left = with_space(here, name, all[name]);
                        let right = merged(before, next);
                        assert forall|k: Seq<char>| left.contains_key(k) == right.contains_key(
                            k,
                        ) && (left.contains_key(k) ==> left[k] =~= right[k]) by {
                            if k == name {
                                assert(space(next, k) == all[name]);
                                assert(space(here, name).union_prefer_right(all[name]) =~= space(
                                    before,
                                    name,
                                ).union_prefer_right(all[name]));
                            } else {
                                assert(space(next, k) == space(done, k));
                            }
                        }
                    }
                }
            },
            Err(failure) => {
                proof {
                    let id = choose|id: Seq<char>| #[trigger]
                        all[name].contains_key(id) && shadows(here, name, id, all[name][id]);
                    assert(all[name].contains_key(id) && shadows(here, name, id, all[name][id]));
                    assert(!space(done, name).contains_key(id));
                    assert(shadows(before, name, id, all[name][id]));
                    assert(space_clash(before, name, all[name]));
                }
                return Err(failure);
            },
        }
        i += 1;
    }
    proof {
        assert forall|k: Seq<char>| all.contains_key(k) implies exists|j: int|
            0 <= j < i && (#[trigger] entries[j]).0@ == k by {
            let j = key_index(entries, k);
            assert(key_at(entries, k, j));
            assert(entries[j].0@ == k);
        }
        assert(first_spaces(entries, i as int, all) =~= all);
    }
    Ok(())
}

/// Disclosed attributes as one record per namespace.
pub open spec fn grouped(disclosed: Map<Seq<char>, Map<Seq<char>, Attr>>) -> Map<Seq<char>, Attr> {
    disclosed.map_values(|fields: Map<Seq<char>, Attr>| Attr::Fields(fields))
}

/// Present disclosed attributes as one record per namespace.
pub fn namespace_grouped_attributes(disclosed: DisclosedByNamespace) -> (out: TextMap<
    AttributeValue,
>)
    ensures
        attr_map(out@) == grouped(disclosed_content(disclosed@)),
{
    let mut left = disclosed.entries;
    let ghost all = left@;
    let mut entries: Vec<(String, AttributeValue)> = Vec::new();
    while left.len() > 0
        invariant
            entries@.len() + left@.len() == all.len(),
            left@ =~= all.skip(entries@.len() as int),
            forall|j: int|
                0 <= j < entries@.len() ==> (#[trigger] entries@[j]).0@ == all[j].0@
                    && entries@[j].1@ == Attr::Fields(attr_map(all[j].1@)),
        decreases left@.len(),
    {
        let (name, fields) = left.remove(0);
        proof {
            lemma_fields_content(fields);
        }
        entries.push((name, AttributeValue::Fields(fields)));
    }
    let out = TextMap { entries };
    proof {
        let new = out.entries@;
        assert forall|k: Seq<char>, j: int| key_at(all, k, j) == key_at(new, k, j) by {
            assert forall|a: int| 0 <= a < all.len() implies all[a].0@ == new[a].0@ by {
                assert(new[a].0@ == all[a].0@);
            }
            if key_at(all, k, j) {
                assert forall|a: int| 0 <= a < j implies (#[trigger] new[a]).0@ != k by {
                    assert(all[a].0@ != k);
                }
            }
            if key_at(new, k, j) {
                assert forall|a: int| 0 <= a < j implies (#[trigger] all[a]).0@ != k by {
                    assert(new[a].0@ != k);
                }
            }
        }
        assert forall|k: Seq<char>| has_key(all, k) == has_key(new, k) && (has_key(all, k)
            ==> out@[k]@ == Attr::Fields(attr_map(disclosed@[k]@))) by {
            if has_key(all, k) {
                let j = key_index(all, k);
                assert(key_at(all, k, j) && key_at(new, k, j));
                lemma_key_index(all, k, j);
                lemma_key_index(new, k, j);
                assert(new[j].1@ == Attr::Fields(attr_map(all[j].1@)));
            }
            if has_key(new, k) {
                let j = key_index(new, k);
                assert(key_at(new, k, j) && key_at(all, k, j));
            }
        }
        assert(attr_map(out@) =~= grouped(disclosed_content(disclosed@)));
    }
    out
}

/// Merging keeps every attribute that was disclosed before, and adds every attribute of the
/// document, with its value.
pub proof fn law_merge_never_shadows(
    disclosed: Map<Seq<char>, Map<Seq<char>, Attr>>,
    document: Map<Seq<char>, Map<Seq<char>, Attr>>,
    name_space: Seq<char>,
    identifier: Seq<char>,
)
    requires
        !clash(disclosed, document),
    ensures
        space(disclosed, name_space).contains_key(identifier) ==> {
            &&& space(merged(disclosed, document), name_space).contains_key(identifier)
            &&& space(merged(disclosed, document), name_space)[identifier] == space(
                disclosed,
                name_space,
            )[identifier]
        },
        space(document, name_space).contains_key(identifier) ==> {
            &&& space(merged(disclosed, document), name_space).contains_key(identifier)
            &&& space(merged(disclosed, document), name_space)[identifier] == space(
                document,
                name_space,
            )[identifier]
        },
{
    if space(document, name_space).contains_key(identifier) {
        assert(document.contains_key(name_space));
        assert(!space_clash(disclosed, name_space, document[name_space]));
        assert(document[name_space].contains_key(identifier));
        assert(!shadows(disclosed, name_space, identifier, document[name_space][identifier]));
        assert(space(document, name_space) != Map::<Seq<char>, Attr>::empty());
    }
}

} // verus!
