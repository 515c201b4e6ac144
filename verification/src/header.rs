//! Header names, header values and the header map that requests and
//! responses carry.

use vstd::prelude::*;

verus! {

/// What `http`'s name table makes of one byte of a header name: the
/// lower-case form of a token character, or 0 for a byte that no header
/// name may hold.
pub open spec fn header_name_char(b: u8) -> u8 {
    if 65 <= b <= 90 {
        (b + 32) as u8
    } else if (97 <= b <= 122) || (48 <= b <= 57) || b == 33 || (35 <= b <= 39) || b == 42
        || b == 43 || b == 45 || b == 46 || (94 <= b <= 96) || b == 124 || b == 126 {
        b
    } else {
        0
    }
}

/// The longest header name that `http` accepts.
pub open spec fn max_header_name_len() -> nat {
    65535
}

/// The header name that the bytes spell: `None` unless there are between 1
/// and `max_header_name_len()` of them and each is a token character; the
/// name itself is the bytes with upper-case letters lowered.
pub open spec fn header_name_from_bytes(bytes: Seq<u8>) -> Option<Seq<u8>> {
    if 1 <= bytes.len() <= max_header_name_len() && (forall|i: int|
        0 <= i < bytes.len() ==> header_name_char(#[trigger] bytes[i]) != 0) {
        Some(bytes.map_values(|b: u8| header_name_char(b)))
    } else {
        None
    }
}

/// A header name as `http` stores it: it reads back as itself.
pub open spec fn is_header_name(bytes: Seq<u8>) -> bool {
    header_name_from_bytes(bytes) == Some(bytes)
}

/// A byte that a header value may hold: a tab, or anything from the space
/// upwards but DEL.
pub open spec fn is_header_value_byte(b: u8) -> bool {
    (b >= 32 && b != 127) || b == 9
}

pub open spec fn is_header_value(bytes: Seq<u8>) -> bool {
    forall|i: int| 0 <= i < bytes.len() ==> is_header_value_byte(#[trigger] bytes[i])
}

/// A byte of a header value that reads as text: a tab, or a visible ASCII
/// character or the space.
pub open spec fn is_visible_ascii(b: u8) -> bool {
    (b >= 32 && b < 127) || b == 9
}

/// A name that `http` makes of some bytes reads back as itself.
pub proof fn lemma_parsed_name_is_canonical(bytes: Seq<u8>)
    requires
        header_name_from_bytes(bytes) is Some,
    ensures
        is_header_name(header_name_from_bytes(bytes).unwrap()),
{
    let n = bytes.map_values(|b: u8| header_name_char(b));
    assert forall|i: int| 0 <= i < n.len() implies header_name_char(#[trigger] n[i]) != 0
        && header_name_char(n[i]) == n[i] by {
        assert(header_name_char(bytes[i]) != 0);
    }
    assert(n.map_values(|b: u8| header_name_char(b)) =~= n);
}

/// `http::header::HeaderName::from_bytes`, with the name handed back as the
/// bytes of `HeaderName::as_str`. The contract restates the function's table:
/// it accepts 1 to 65535 token characters and lowers upper-case letters.
#[verifier::external_body]
pub(crate) fn parse_header_name(bytes: &[u8]) -> (name: Option<Vec<u8>>)
    ensures
        name matches Some(n) ==> header_name_from_bytes(bytes@) == Some(n@),
        name is None ==> header_name_from_bytes(bytes@) is None,
{
    http::header::HeaderName::from_bytes(bytes).ok().map(|n| n.as_str().as_bytes().to_vec())
}

/// `http::header::HeaderValue::from_bytes`, with the value handed back as
/// its bytes. The function accepts exactly the slices whose every byte is a
/// tab or at least a space and not DEL, and keeps the bytes as they are.
#[verifier::external_body]
pub(crate) fn parse_header_value(bytes: &[u8]) -> (value: Option<Vec<u8>>)
    ensures
        value matches Some(v) ==> is_header_value(bytes@) && v@ == bytes@,
        value is None ==> !is_header_value(bytes@),
{
    http::header::HeaderValue::from_bytes(bytes).ok().map(|v| v.as_bytes().to_vec())
}

#[verifier::external_type_specification]
#[verifier::external_body]
pub struct ExHeaderValue(http::header::HeaderValue);

#[verifier::external_type_specification]
#[verifier::external_body]
#[verifier::reject_recursive_types(T)]
pub struct ExHeaderMap<T>(http::header::HeaderMap<T>);

/// What a header map holds, entry by entry in the order in which the map
/// keeps them: each entry is a name and the values stored under it, first
/// to last.
pub uninterp spec fn header_entries(map: http::header::HeaderMap) -> Seq<(Seq<u8>, Seq<Seq<u8>>)>;

/// The position of the first entry with the given name.
pub open spec fn entry_index(entries: Seq<(Seq<u8>, Seq<Seq<u8>>)>, name: Seq<u8>) -> Option<int>
    decreases entries.len(),
{
    if entries.len() == 0 {
        None
    } else if entries[0].0 == name {
        Some(0)
    } else {
        match entry_index(entries.drop_first(), name) {
            Some(i) => Some(i + 1),
            None => None,
        }
    }
}

/// The first entry with the given name is the one that `entry_index`
/// finds, and no entry has a name it does not find.
pub proof fn lemma_entry_index(entries: Seq<(Seq<u8>, Seq<Seq<u8>>)>, name: Seq<u8>)
    ensures
        entry_index(entries, name) matches Some(i) ==> 0 <= i < entries.len() && entries[i].0
            == name && forall|j: int| 0 <= j < i ==> entries[j].0 != name,
        entry_index(entries, name) is None ==> forall|j: int|
            0 <= j < entries.len() ==> entries[j].0 != name,
    decreases entries.len(),
{
    if entries.len() > 0 && entries[0].0 != name {
        lemma_entry_index(entries.drop_first(), name);
        if entry_index(entries, name) is None {
            assert forall|j: int| 0 <= j < entries.len() implies entries[j].0 != name by {
                if j > 0 {
                    assert(entries.drop_first()[j - 1] == entries[j]);
                }
            }
        } else {
            let i = entry_index(entries, name).unwrap();
            assert forall|j: int| 0 <= j < i implies entries[j].0 != name by {
                if j > 0 {
                    assert(entries.drop_first()[j - 1] == entries[j]);
                }
            }
        }
    }
}

/// Storing under a name adds at most one entry.
pub proof fn lemma_put_entry_len(
    entries: Seq<(Seq<u8>, Seq<Seq<u8>>)>,
    name: Seq<u8>,
    values: Seq<Seq<u8>>,
)
    ensures
        put_entry(entries, name, values).len() <= entries.len() + 1,
        put_entry(entries, name, values).len() >= entries.len(),
{
    lemma_entry_index(entries, name);
}

/// The name at `i` is the first with that name, so `entry_index` finds it.
proof fn lemma_entry_index_at(entries: Seq<(Seq<u8>, Seq<Seq<u8>>)>, name: Seq<u8>, i: int)
    requires
        0 <= i < entries.len(),
        entries[i].0 == name,
        forall|j: int| 0 <= j < i ==> entries[j].0 != name,
    ensures
        entry_index(entries, name) == Some(i),
{
    lemma_entry_index(entries, name);
    if let Some(k) = entry_index(entries, name) {
        if k < i {
            assert(entries[k].0 == name);
        } else if k > i {
            assert(entries[i].0 != name);
        }
    }
}

/// No entry has the name, so `entry_index` finds none.
proof fn lemma_entry_index_absent(entries: Seq<(Seq<u8>, Seq<Seq<u8>>)>, name: Seq<u8>)
    requires
        forall|j: int| 0 <= j < entries.len() ==> entries[j].0 != name,
    ensures
        entry_index(entries, name) is None,
{
    lemma_entry_index(entries, name);
}

/// Entries whose names are pairwise distinct, as the entries of every
/// header map are.
pub open spec fn distinct_names(entries: Seq<(Seq<u8>, Seq<Seq<u8>>)>) -> bool {
    forall|i: int, j: int| 0 <= i < j < entries.len() ==> entries[i].0 != entries[j].0
}

/// The values stored under a name, or none.
pub open spec fn values_of(entries: Seq<(Seq<u8>, Seq<Seq<u8>>)>, name: Seq<u8>) -> Seq<Seq<u8>> {
    match entry_index(entries, name) {
        Some(i) => entries[i].1,
        None => Seq::empty(),
    }
}

/// The entries after storing `values` under `name`: an entry with that name
/// keeps its place and takes the new values in place of all its old ones; a
/// new name goes last.
pub open spec fn put_entry(
    entries: Seq<(Seq<u8>, Seq<Seq<u8>>)>,
    name: Seq<u8>,
    values: Seq<Seq<u8>>,
) -> Seq<(Seq<u8>, Seq<Seq<u8>>)> {
    match entry_index(entries, name) {
        Some(i) => entries.update(i, (name, values)),
        None => entries.push((name, values)),
    }
}

/// The entries after taking over, one by one, every entry of `other`.
pub open spec fn extend_entries(
    entries: Seq<(Seq<u8>, Seq<Seq<u8>>)>,
    other: Seq<(Seq<u8>, Seq<Seq<u8>>)>,
) -> Seq<(Seq<u8>, Seq<Seq<u8>>)>
    decreases other.len(),
{
    if other.len() == 0 {
        entries
    } else {
        extend_entries(put_entry(entries, other[0].0, other[0].1), other.drop_first())
    }
}

/// The (name, value) pairs in the order in which iterating the map yields
/// them: entry by entry, and within an entry value by value.
pub open spec fn flatten_entries(entries: Seq<(Seq<u8>, Seq<Seq<u8>>)>) -> Seq<(Seq<u8>, Seq<u8>)>
    decreases entries.len(),
{
    if entries.len() == 0 {
        Seq::empty()
    } else {
        flatten_entries(entries.drop_last()) + entries.last().1.map_values(
            |v: Seq<u8>| (entries.last().0, v),
        )
    }
}

/// Storing values under a name: reading that name gives exactly the stored
/// values, and reading any other name gives what it gave before.
pub proof fn lemma_put_entry_values(
    entries: Seq<(Seq<u8>, Seq<Seq<u8>>)>,
    name: Seq<u8>,
    values: Seq<Seq<u8>>,
    other: Seq<u8>,
)
    ensures
        values_of(put_entry(entries, name, values), name) == values,
        other != name ==> values_of(put_entry(entries, name, values), other) == values_of(
            entries,
            other,
        ),
{
    let put = put_entry(entries, name, values);
    lemma_entry_index(entries, name);
    lemma_entry_index(entries, other);
    match entry_index(entries, name) {
        Some(i) => {
            assert forall|j: int| 0 <= j < i implies put[j].0 != name by {}
            lemma_entry_index_at(put, name, i);
        },
        None => {
            lemma_entry_index_at(put, name, entries.len() as int);
        },
    }
    if other != name {
        match entry_index(entries, other) {
            Some(k) => {
                assert forall|j: int| 0 <= j < k implies put[j].0 != other by {
                    assert(entries[j].0 != other);
                }
                lemma_entry_index_at(put, other, k);
            },
            None => {
                assert forall|j: int| 0 <= j < put.len() implies put[j].0 != other by {
                    if j < entries.len() {
                        assert(entries[j].0 != other);
                    }
                }
                lemma_entry_index_absent(put, other);
            },
        }
    }
}

/// Storing under a name never gives a map two entries with one name.
pub proof fn lemma_put_entry_distinct(
    entries: Seq<(Seq<u8>, Seq<Seq<u8>>)>,
    name: Seq<u8>,
    values: Seq<Seq<u8>>,
)
    requires
        distinct_names(entries),
    ensures
        distinct_names(put_entry(entries, name, values)),
{
    lemma_entry_index(entries, name);
}

/// Taking over the entries of another map (whose names are distinct, as a
/// map's are) never gives two entries with one name.
pub proof fn lemma_extend_entries_distinct(
    entries: Seq<(Seq<u8>, Seq<Seq<u8>>)>,
    other: Seq<(Seq<u8>, Seq<Seq<u8>>)>,
)
    requires
        distinct_names(entries),
    ensures
        distinct_names(extend_entries(entries, other)),
    decreases other.len(),
{
    if other.len() > 0 {
        lemma_put_entry_distinct(entries, other[0].0, other[0].1);
        lemma_extend_entries_distinct(put_entry(entries, other[0].0, other[0].1), other.drop_first());
    }
}

/// Extending a map by another: a name of the other map reads as it does
/// there, and any other name reads as it did before.
pub proof fn lemma_extend_entries_values(
    entries: Seq<(Seq<u8>, Seq<Seq<u8>>)>,
    other: Seq<(Seq<u8>, Seq<Seq<u8>>)>,
    name: Seq<u8>,
)
    requires
        distinct_names(other),
    ensures
        values_of(extend_entries(entries, other), name) == (if entry_index(other, name) is Some {
            values_of(other, name)
        } else {
            values_of(entries, name)
        }),
    decreases other.len(),
{
    if other.len() > 0 {
        let first = other[0];
        let rest = other.drop_first();
        let put = put_entry(entries, first.0, first.1);
        assert(distinct_names(rest)) by {
            assert forall|i: int, j: int| 0 <= i < j < rest.len() implies rest[i].0 != rest[j].0 by {
                assert(rest[i] == other[i + 1] && rest[j] == other[j + 1]);
            }
        }
        lemma_extend_entries_values(put, rest, name);
        lemma_put_entry_values(entries, first.0, first.1, name);
        if first.0 == name {
            assert forall|j: int| 0 <= j < rest.len() implies rest[j].0 != name by {
                assert(rest[j] == other[j + 1]);
            }
            lemma_entry_index_absent(rest, name);
        } else {
            match entry_index(rest, name) {
                Some(k) => {
                    lemma_entry_index(rest, name);
                    assert(entry_index(other, name) == Some(k + 1));
                    assert(rest[k] == other[k + 1]);
                },
                None => {
                    assert(entry_index(other, name) is None);
                },
            }
        }
    }
}

/// Names that differ only in the case of their letters are the same header
/// name.
pub proof fn lemma_header_name_ignores_case(bytes: Seq<u8>)
    ensures
        header_name_from_bytes(bytes.map_values(|b: u8| if 65 <= b <= 90 { (b + 32) as u8 } else { b }))
            == header_name_from_bytes(bytes),
{
    let lower = bytes.map_values(|b: u8| if 65 <= b <= 90 { (b + 32) as u8 } else { b });
    assert forall|i: int| 0 <= i < bytes.len() implies header_name_char(#[trigger] lower[i])
        == header_name_char(bytes[i]) by {}
    assert((forall|i: int| 0 <= i < lower.len() ==> header_name_char(#[trigger] lower[i]) != 0)
        == (forall|i: int| 0 <= i < bytes.len() ==> header_name_char(#[trigger] bytes[i]) != 0)) by {
        if forall|i: int| 0 <= i < bytes.len() ==> header_name_char(#[trigger] bytes[i]) != 0 {
            assert forall|i: int| 0 <= i < lower.len() implies header_name_char(#[trigger] lower[i])
                != 0 by {
                assert(header_name_char(bytes[i]) != 0);
            }
        }
        if forall|i: int| 0 <= i < lower.len() ==> header_name_char(#[trigger] lower[i]) != 0 {
            assert forall|i: int| 0 <= i < bytes.len() implies header_name_char(#[trigger] bytes[i])
                != 0 by {
                assert(header_name_char(lower[i]) != 0);
            }
        }
    }
    assert(lower.map_values(|b: u8| header_name_char(b)) =~= bytes.map_values(
        |b: u8| header_name_char(b),
    ));
}

/// The number of entries up to which storing one more name can never make
/// `http`'s map grow its table past its limit of 1 << 15 slots, whatever state
/// its probing is in; beyond it, an insertion may panic.
pub open spec fn header_map_safe_len() -> nat {
    6553
}

/// `http::HeaderMap::new`: a map with no entry.
#[verifier::external_body]
pub(crate) fn new_header_map() -> (map: http::header::HeaderMap)
    ensures
        header_entries(map) == Seq::<(Seq<u8>, Seq<Seq<u8>>)>::empty(),
{
    http::header::HeaderMap::new()
}

/// `http::HeaderMap::insert`, given the name and the value as the bytes that
/// `HeaderName::as_str` and `HeaderValue::as_bytes` would give: the name's
/// entry keeps its place and holds the one new value; a new name goes last.
/// A map never holds two entries with one name.
/// Every insertion first reserves room for one more entry, which can panic only
/// once the map holds more than `header_map_safe_len()` entries.
#[verifier::external_body]
pub(crate) fn header_map_insert(map: &mut http::header::HeaderMap, name: &[u8], value: &[u8])
    requires
        is_header_name(name@),
        is_header_value(value@),
        header_entries(*old(map)).len() <= header_map_safe_len(),
    ensures
        header_entries(*final(map)) == put_entry(header_entries(*old(map)), name@, seq![value@]),
        distinct_names(header_entries(*final(map))),
{
    let name = http::header::HeaderName::from_bytes(name).expect("a header name");
    let value = http::header::HeaderValue::from_bytes(value).expect("a header value");
    map.insert(name, value);
}

/// `<http::HeaderMap as Extend<(Option<HeaderName>, HeaderValue)>>::extend`
/// with another map: each entry of `other`, in its order, replaces all the
/// values of the entry with its name, or goes last as a new entry. Each entry
/// taken over first reserves room for one more, as an insertion does; an
/// empty `other` reserves nothing and leaves the map as it is. A map never
/// holds two entries with one name.
#[verifier::external_body]
pub(crate) fn header_map_extend(map: &mut http::header::HeaderMap, other: http::header::HeaderMap)
    requires
        header_entries(other).len() > 0 ==> extend_entries(
            header_entries(*old(map)),
            header_entries(other),
        ).len() <= header_map_safe_len(),
    ensures
        header_entries(*final(map)) == extend_entries(
            header_entries(*old(map)),
            header_entries(other),
        ),
        distinct_names(header_entries(*final(map))),
{
    map.extend(other);
}

/// The entries of an `http::HeaderMap`, each name as the bytes of
/// `HeaderName::as_str` and each value as `HeaderValue::as_bytes`, read
/// through `keys`, which visits the entries in the map's order, and `get_all`,
/// which yields an entry's values first to last. A map never holds two
/// entries with one name.
#[verifier::external_body]
pub(crate) fn header_map_entries(map: &http::header::HeaderMap) -> (entries: Vec<(Vec<u8>, Vec<Vec<u8>>)>)
    ensures
        entries.deep_view() == header_entries(*map),
        distinct_names(entries.deep_view()),
{
    let mut entries = Vec::new();
    for name in map.keys() {
        let values = map.get_all(name).iter().map(|v| v.as_bytes().to_vec()).collect();
        entries.push((name.as_str().as_bytes().to_vec(), values));
    }
    entries
}

} // verus!
