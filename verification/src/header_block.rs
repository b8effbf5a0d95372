//! Header blocks: how header fields are written in a frame, before they are
//! compressed.
//!
//! A block is the number of names, then for each name in increasing order its
//! length, its octets, the length of its value and the value. Where a name has
//! several values, they are joined by a zero octet.

use crate::error::{protocol, Error};
#[allow(unused_imports)]
use crate::error::is_protocol;
use crate::frame::Fields;
#[allow(unused_imports)]
use crate::headers::{
    added, append, fields, gathered, lower_name, name_error_text, name_octets, no_fields,
    pair_view, pairs, valid_name, valid_value, value_error_text, value_octets, ROOM_FOR_NAMES,
};
use crate::wire::{get32, put32, put_octets};
#[allow(unused_imports)]
use crate::wire::{be32, be32_at, law_be32_is_read_back};
use http::{HeaderMap, HeaderName, HeaderValue};
use vstd::prelude::*;
use vstd::string::StringExecFns;

verus! {

broadcast use crate::wire::group_wire;

/// Values joined by a zero octet.
pub open spec fn joined(values: Seq<Seq<u8>>) -> Seq<u8>
    decreases values.len(),
{
    if values.len() == 0 {
        Seq::empty()
    } else if values.len() == 1 {
        values[0]
    } else {
        joined(values.drop_last()) + seq![0u8] + values.last()
    }
}

/// What stands between the zero octets of `s`.
pub open spec fn parts(s: Seq<u8>) -> Seq<Seq<u8>>
    decreases s.len(),
{
    if s.len() == 0 {
        seq![Seq::empty()]
    } else if s.last() == 0 {
        parts(s.drop_last()).push(Seq::empty())
    } else {
        let rest = parts(s.drop_last());
        rest.drop_last().push(rest.last().push(s.last()))
    }
}

/// The fields after several values have been added under one name.
pub open spec fn added_all(f: Fields, name: Seq<u8>, values: Seq<Seq<u8>>) -> Fields
    decreases values.len(),
{
    if values.len() == 0 {
        f
    } else {
        added(added_all(f, name, values.drop_last()), name, values.last())
    }
}

/// What can be wrong with a header block.
pub ghost enum BlockFault {
    Short,
    NameLength,
    NameOctets,
    ValueLength,
    ValueOctets,
    BadName,
    BadValue,
}

impl BlockFault {
    /// The message that reports the fault.
    pub open spec fn text(self) -> Seq<char> {
        match self {
            BlockFault::Short => "header block too short"@,
            BlockFault::NameLength => "header name length truncated"@,
            BlockFault::NameOctets => "header name truncated"@,
            BlockFault::ValueLength => "header value length truncated"@,
            BlockFault::ValueOctets => "header value truncated"@,
            BlockFault::BadName => "invalid header name: "@ + "invalid HTTP header name"@,
            BlockFault::BadValue => "invalid header value: "@ + "failed to parse header value"@,
        }
    }
}

/// Whether every one of `values` is a valid header value.
pub open spec fn all_valid(values: Seq<Seq<u8>>) -> bool {
    forall|i: int| 0 <= i < values.len() ==> valid_value(#[trigger] values[i])
}

/// What `count` entries at the front of `s` add to the fields `f`.
pub open spec fn entries_read(s: Seq<u8>, count: nat, f: Fields) -> Result<Fields, BlockFault>
    decreases count,
{
    let n = be32_at(s, 0);
    let v = be32_at(s, 4 + n);
    let name = s.subrange(4, 4 + n);
    let value = s.subrange(8 + n, 8 + n + v);
    if count == 0 {
        Ok(f)
    } else if s.len() < 4 {
        Err(BlockFault::NameLength)
    } else if s.len() < 4 + n {
        Err(BlockFault::NameOctets)
    } else if s.len() < 8 + n {
        Err(BlockFault::ValueLength)
    } else if s.len() < 8 + n + v {
        Err(BlockFault::ValueOctets)
    } else if !valid_name(name) {
        Err(BlockFault::BadName)
    } else if !all_valid(parts(value)) {
        Err(BlockFault::BadValue)
    } else {
        entries_read(
            s.skip(8 + n + v),
            (count - 1) as nat,
            added_all(f, lower_name(name), parts(value)),
        )
    }
}

/// The fields that a block holds. What follows the last entry is ignored.
pub open spec fn block_read(s: Seq<u8>) -> Result<Fields, BlockFault> {
    if s.len() < 4 {
        Err(BlockFault::Short)
    } else {
        entries_read(s.skip(4), be32_at(s, 0) as nat, Map::empty())
    }
}

/// Whether `r` reports what `block_read` says.
pub open spec fn reports(r: Result<HeaderMap, Error>, read: Result<Fields, BlockFault>) -> bool {
    match read {
        Ok(f) => r matches Ok(m) && fields(m) == f,
        Err(fault) => r matches Err(e) && is_protocol(e, fault.text()),
    }
}

/// Whether adding valid `values` one by one under `name` comes to one that is
/// added to a map of [`ROOM_FOR_NAMES`] names or more.
pub open spec fn crowds(f: Fields, name: Seq<u8>, values: Seq<Seq<u8>>) -> bool {
    exists|i: int|
        0 <= i < values.len() && all_valid(values.take(i + 1)) && (#[trigger] added_all(
            f,
            name,
            values.take(i),
        )).dom().len() >= ROOM_FOR_NAMES
}

/// Whether reading `count` entries at the front of `s` into the fields `f` comes
/// to a value that is added to a map of [`ROOM_FOR_NAMES`] names or more.
pub open spec fn entries_crowd(s: Seq<u8>, count: nat, f: Fields) -> bool
    decreases count,
{
    let n = be32_at(s, 0);
    let v = be32_at(s, 4 + n);
    let name = s.subrange(4, 4 + n);
    let values = parts(s.subrange(8 + n, 8 + n + v));
    &&& count > 0
    &&& s.len() >= 4
    &&& s.len() >= 8 + n
    &&& s.len() >= 8 + n + v
    &&& valid_name(name)
    &&& crowds(f, lower_name(name), values) || (all_valid(values) && entries_crowd(
        s.skip(8 + n + v),
        (count - 1) as nat,
        added_all(f, lower_name(name), values),
    ))
}

/// Whether reading the block `s` comes to a value that is added to a map of
/// [`ROOM_FOR_NAMES`] names or more, which the map may refuse.
pub open spec fn block_crowds(s: Seq<u8>) -> bool {
    s.len() >= 4 && entries_crowd(s.skip(4), be32_at(s, 0) as nat, Map::empty())
}

/// The message for a block with more names than a header map can hold.
pub open spec fn too_many_names() -> Seq<char> {
    "too many header names"@
}

/// Splits an octet string at its zero octets.
fn split_at_zeros(s: &[u8]) -> (out: Vec<Vec<u8>>)
    ensures
        out@.map_values(|p: Vec<u8>| p@) == parts(s@),
{
    let mut done: Vec<Vec<u8>> = Vec::new();
    let mut part: Vec<u8> = Vec::new();
    let mut i: usize = 0;
    while i < s.len()
        invariant
            i <= s@.len(),
            done@.map_values(|p: Vec<u8>| p@).push(part@) == parts(s@.take(i as int)),
        decreases s.len() - i,
    {
        let ghost before = done@.map_values(|p: Vec<u8>| p@);
        assert(s@.take(i + 1).drop_last() == s@.take(i as int));
        assert(before.push(part@).drop_last() == before);
        if s[i] == 0 {
            done.push(part);
            part = Vec::new();
            assert(done@.map_values(|p: Vec<u8>| p@) == before.push(done@.last()@));
        } else {
            part.push(s[i]);
        }
        i += 1;
    }
    assert(s@.take(i as int) == s@);
    let ghost before = done@.map_values(|p: Vec<u8>| p@);
    done.push(part);
    assert(done@.map_values(|p: Vec<u8>| p@) == before.push(part@));
    done
}

/// Adds `values`, none of which has been looked at yet, under `name`.
fn append_all(map: &mut HeaderMap, name: &HeaderName, values: &Vec<Vec<u8>>) -> (r: Result<
    (),
    Error,
>)
    ensures
        ({
            let views = values@.map_values(|p: Vec<u8>| p@);
            ||| r is Ok && all_valid(views) && fields(*final(map)) == added_all(
                fields(*old(map)),
                name_octets(*name),
                views,
            )
            ||| r matches Err(e) && !all_valid(views) && is_protocol(e, BlockFault::BadValue.text())
            ||| r matches Err(e) && crowds(fields(*old(map)), name_octets(*name), views)
                && is_protocol(e, too_many_names())
        }),
{
    let ghost views = values@.map_values(|p: Vec<u8>| p@);
    let ghost before = fields(*map);
    let mut i: usize = 0;
    assert(views.take(0) == Seq::<Seq<u8>>::empty());
    while i < values.len()
        invariant
            i <= values@.len(),
            views == values@.map_values(|p: Vec<u8>| p@),
            before == fields(*old(map)),
            fields(*map) == added_all(before, name_octets(*name), views.take(i as int)),
            forall|j: int| 0 <= j < i ==> valid_value(#[trigger] views[j]),
        decreases values.len() - i,
    {
        assert(views[i as int] == values@[i as int]@);
        match HeaderValue::from_bytes(values[i].as_slice()) {
            Ok(value) => {
                assert(views.take(i + 1).drop_last() == views.take(i as int));
                assert(all_valid(views.take(i + 1)));
                if append(map, name.clone(), value).is_err() {
                    return Err(protocol("too many header names"));
                }
            },
            Err(e) => {
                let text = "invalid header value: ".to_owned().concat(
                    value_error_text(&e).as_str(),
                );
                return Err(protocol(text.as_str()));
            },
        }
        i += 1;
    }
    assert(views.take(i as int) == views);
    Ok(())
}

/// Reads the header fields that a block holds.
///
/// The block is read as [`block_read`] says. One that would add to a map of
/// [`ROOM_FOR_NAMES`] names or more may also be refused because the header map
/// cannot hold so many.
pub fn parse_header_block(raw: &[u8]) -> (r: Result<HeaderMap, Error>)
    ensures
        ({
            ||| reports(r, block_read(raw@))
            ||| block_crowds(raw@) && (r matches Err(e) && is_protocol(e, too_many_names()))
        }),
{
    if raw.len() < 4 {
        return Err(protocol("header block too short"));
    }
    let count: u32 = get32(raw, 0);
    let mut map = no_fields();
    let mut pos: usize = 4;
    let mut done: u32 = 0;
    while done < count
        invariant
            4 <= pos <= raw@.len(),
            done <= count,
            count == be32_at(raw@, 0),
            entries_crowd(raw@.skip(pos as int), (count - done) as nat, fields(map))
                ==> block_crowds(raw@),
            entries_read(raw@.skip(pos as int), (count - done) as nat, fields(map)) == block_read(
                raw@,
            ),
        decreases count - done,
    {
        let ghost s = raw@.skip(pos as int);
        if raw.len() - pos < 4 {
            return Err(protocol("header name length truncated"));
        }
        let name_len: u32 = get32(raw, pos);
        assert(be32_at(s, 0) == name_len) by {
            reveal(be32_at);
        }
        pos += 4;
        if raw.len() - pos < name_len as usize {
            return Err(protocol("header name truncated"));
        }
        let name_octets = vstd::slice::slice_subrange(raw, pos, pos + name_len as usize);
        assert(name_octets@ == s.subrange(4, 4 + name_len));
        pos += name_len as usize;
        if raw.len() - pos < 4 {
            return Err(protocol("header value length truncated"));
        }
        let value_len: u32 = get32(raw, pos);
        assert(be32_at(s, 4 + name_len) == value_len) by {
            reveal(be32_at);
        }
        pos += 4;
        if raw.len() - pos < value_len as usize {
            return Err(protocol("header value truncated"));
        }
        let value_octets = vstd::slice::slice_subrange(raw, pos, pos + value_len as usize);
        assert(value_octets@ == s.subrange(8 + name_len, 8 + name_len + value_len));
        pos += value_len as usize;
        assert(raw@.skip(pos as int) == s.skip(8 + name_len + value_len));
        let name = match HeaderName::from_bytes(name_octets) {
            Ok(name) => name,
            Err(e) => {
                let text = "invalid header name: ".to_owned().concat(name_error_text(&e).as_str());
                return Err(protocol(text.as_str()));
            },
        };
        let values = split_at_zeros(value_octets);
        match append_all(&mut map, &name, &values) {
            Ok(()) => {},
            Err(e) => {
                return Err(e);
            },
        }
        done += 1;
    }
    Ok(map)
}

/// Whether `a` comes before `b` in the order of octet strings, which compares
/// the first octets that differ.
pub open spec fn precedes(a: Seq<u8>, b: Seq<u8>) -> bool
    decreases a.len(),
{
    if b.len() == 0 {
        false
    } else if a.len() == 0 {
        true
    } else if a[0] != b[0] {
        a[0] < b[0]
    } else {
        precedes(a.skip(1), b.skip(1))
    }
}

/// Whether each of `names` comes before those that follow it.
pub open spec fn increasing(names: Seq<Seq<u8>>) -> bool {
    forall|i: int, j: int| 0 <= i < j < names.len() ==> precedes(#[trigger] names[i], #[trigger] names[j])
}

/// A length as it is written: its low 32 bits.
pub open spec fn length_octets(n: nat) -> Seq<u8> {
    be32((n % 0x1_0000_0000) as u32)
}

/// One entry of a block.
pub open spec fn entry_octets(name: Seq<u8>, value: Seq<u8>) -> Seq<u8> {
    length_octets(name.len()) + name + length_octets(value.len()) + value
}

/// The entries for `names`, one after the other.
pub open spec fn entries_octets(names: Seq<Seq<u8>>, f: Fields) -> Seq<u8>
    decreases names.len(),
{
    if names.len() == 0 {
        Seq::empty()
    } else {
        entries_octets(names.drop_last(), f) + entry_octets(names.last(), joined(f[names.last()]))
    }
}

/// Whether `names` are the names of `f` in increasing order.
pub open spec fn lists_names(names: Seq<Seq<u8>>, f: Fields) -> bool {
    &&& increasing(names)
    &&& names.to_set() == f.dom()
}

/// Whether `raw` is how the fields `f` are written.
pub open spec fn is_block_of(raw: Seq<u8>, f: Fields) -> bool {
    exists|names: Seq<Seq<u8>>| #[trigger]
        lists_names(names, f) && raw == length_octets(names.len()) + entries_octets(names, f)
}

proof fn lemma_precedes_is_irreflexive(a: Seq<u8>)
    ensures
        !precedes(a, a),
    decreases a.len(),
{
    if a.len() > 0 {
        lemma_precedes_is_irreflexive(a.skip(1));
    }
}

proof fn lemma_precedes_is_transitive(a: Seq<u8>, b: Seq<u8>, c: Seq<u8>)
    requires
        precedes(a, b),
        precedes(b, c),
    ensures
        precedes(a, c),
    decreases a.len(),
{
    if a.len() > 0 && a[0] == b[0] && b[0] == c[0] {
        lemma_precedes_is_transitive(a.skip(1), b.skip(1), c.skip(1));
    }
}

proof fn lemma_precedes_after_common_front(a: Seq<u8>, b: Seq<u8>, n: int)
    requires
        0 <= n <= a.len(),
        n <= b.len(),
        a.take(n) == b.take(n),
    ensures
        precedes(a, b) == precedes(a.skip(n), b.skip(n)),
    decreases n,
{
    if n == 0 {
        assert(a.skip(0) == a);
        assert(b.skip(0) == b);
    } else {
        assert(a[0] == a.take(n)[0]);
        assert(b[0] == b.take(n)[0]);
        assert(a.skip(1).take(n - 1) == a.take(n).skip(1));
        assert(b.skip(1).take(n - 1) == b.take(n).skip(1));
        lemma_precedes_after_common_front(a.skip(1), b.skip(1), n - 1);
        assert(a.skip(1).skip(n - 1) == a.skip(n));
        assert(b.skip(1).skip(n - 1) == b.skip(n));
    }
}

/// How two octet strings stand to each other.
enum Place {
    Before,
    Same,
    After,
}

/// Where `a` stands in relation to `b`.
fn place(a: &[u8], b: &[u8]) -> (p: Place)
    ensures
        match p {
            Place::Before => precedes(a@, b@),
            Place::Same => a@ == b@,
            Place::After => precedes(b@, a@),
        },
{
    let mut i: usize = 0;
    while i < a.len() && i < b.len() && a[i] == b[i]
        invariant
            i <= a@.len(),
            i <= b@.len(),
            a@.take(i as int) == b@.take(i as int),
        decreases a.len() - i,
    {
        assert(a@.take(i + 1) == a@.take(i as int).push(a@[i as int]));
        assert(b@.take(i + 1) == b@.take(i as int).push(b@[i as int]));
        i += 1;
    }
    proof {
        lemma_precedes_after_common_front(a@, b@, i as int);
        lemma_precedes_after_common_front(b@, a@, i as int);
    }
    if i < a.len() {
        if i < b.len() && a[i] < b[i] {
            Place::Before
        } else {
            Place::After
        }
    } else if i < b.len() {
        Place::Before
    } else {
        assert(a@.take(i as int) == a@);
        assert(b@.take(i as int) == b@);
        Place::Same
    }
}

/// The names of a table.
spec fn names_of(table: Seq<(Vec<u8>, Vec<u8>)>) -> Seq<Seq<u8>> {
    table.map_values(|p: (Vec<u8>, Vec<u8>)| p.0@)
}

/// Whether `table` lists the names of `f` in increasing order, each with its
/// values joined.
spec fn tabulates(table: Seq<(Vec<u8>, Vec<u8>)>, f: Fields) -> bool {
    &&& increasing(names_of(table))
    &&& names_of(table).to_set() == f.dom()
    &&& forall|i: int|
        0 <= i < table.len() ==> (#[trigger] table[i]).1@ == joined(f[table[i].0@])
    &&& forall|name: Seq<u8>| #[trigger] f.contains_key(name) ==> f[name].len() > 0
}

proof fn lemma_table_entry_is_changed(
    before: Seq<(Vec<u8>, Vec<u8>)>,
    after: Seq<(Vec<u8>, Vec<u8>)>,
    f: Fields,
    i: int,
    value: Seq<u8>,
)
    requires
        tabulates(before, f),
        0 <= i < before.len(),
        after == before.update(i, after[i]),
        after[i].0@ == before[i].0@,
        after[i].1@ == before[i].1@ + seq![0u8] + value,
    ensures
        tabulates(after, added(f, before[i].0@, value)),
{
    let name = before[i].0@;
    let g = added(f, name, value);
    assert(names_of(after) =~= names_of(before));
    assert(names_of(before)[i] == name);
    assert(names_of(before).to_set().contains(name));
    assert(f.contains_key(name));
    assert(names_of(after).to_set() =~= g.dom());
    assert(f[name].push(value).drop_last() =~= f[name]);
    assert forall|j: int| 0 <= j < after.len() implies (#[trigger] after[j]).1@ == joined(
        g[after[j].0@],
    ) by {
        if j != i {
            assert(after[j] == before[j]);
            assert(names_of(before)[j] == before[j].0@);
            if before[j].0@ == name {
                lemma_precedes_is_irreflexive(name);
                assert(precedes(names_of(before)[j], names_of(before)[i]) || precedes(
                    names_of(before)[i],
                    names_of(before)[j],
                ));
            }
        }
    }
}

proof fn lemma_table_entry_is_inserted(
    before: Seq<(Vec<u8>, Vec<u8>)>,
    f: Fields,
    i: int,
    entry: (Vec<u8>, Vec<u8>),
)
    requires
        tabulates(before, f),
        0 <= i <= before.len(),
        forall|j: int| 0 <= j < i ==> precedes((#[trigger] before[j]).0@, entry.0@),
        i < before.len() ==> precedes(entry.0@, before[i].0@),
    ensures
        tabulates(before.insert(i, entry), added(f, entry.0@, entry.1@)),
{
    let name = entry.0@;
    let after = before.insert(i, entry);
    let g = added(f, name, entry.1@);
    assert forall|j: int| i <= j < before.len() implies precedes(
        name,
        (#[trigger] before[j]).0@,
    ) by {
        if j > i {
            assert(precedes(names_of(before)[i], names_of(before)[j]));
            lemma_precedes_is_transitive(name, before[i].0@, before[j].0@);
        }
    }
    assert(!f.contains_key(name)) by {
        if f.contains_key(name) {
            assert(names_of(before).to_set().contains(name));
            let j = choose|j: int| 0 <= j < before.len() && names_of(before)[j] == name;
            assert(before[j].0@ == name);
            lemma_precedes_is_irreflexive(name);
        }
    }
    assert(names_of(after) =~= names_of(before).insert(i, name));
    assert forall|j: int, k: int| 0 <= j < k < after.len() implies precedes(
        #[trigger] names_of(after)[j],
        #[trigger] names_of(after)[k],
    ) by {
        let j0 = if j < i { j } else { j - 1 };
        let k0 = if k < i { k } else { k - 1 };
        if j != i && k != i {
            assert(precedes(names_of(before)[j0], names_of(before)[k0]));
        } else if j == i {
            assert(names_of(after)[k] == before[k0].0@);
        } else {
            assert(names_of(after)[j] == before[j0].0@);
        }
    }
    assert(names_of(after).to_set() =~= g.dom()) by {
        assert forall|x: Seq<u8>| #[trigger] names_of(after).to_set().contains(x) == (x == name
            || f.contains_key(x)) by {
            if names_of(after).contains(x) {
                let k = choose|k: int| 0 <= k < after.len() && names_of(after)[k] == x;
                if k != i {
                    assert(names_of(before)[if k < i { k } else { k - 1 }] == x);
                    assert(names_of(before).to_set().contains(x));
                }
            }
            if x == name {
                assert(names_of(after)[i] == name);
            }
            if f.contains_key(x) {
                assert(names_of(before).to_set().contains(x));
                let k = choose|k: int| 0 <= k < before.len() && names_of(before)[k] == x;
                assert(names_of(after)[if k < i { k } else { k + 1 }] == x);
            }
        }
    }
    assert forall|j: int| 0 <= j < after.len() implies (#[trigger] after[j]).1@ == joined(
        g[after[j].0@],
    ) by {
        if j != i {
            let j0 = if j < i { j } else { j - 1 };
            assert(after[j] == before[j0]);
            assert(names_of(before)[j0] == before[j0].0@);
            assert(names_of(before).to_set().contains(before[j0].0@));
            assert(f.contains_key(before[j0].0@));
        }
    }
}

/// Enters one more value into a table.
fn enter(
    table: &mut Vec<(Vec<u8>, Vec<u8>)>,
    name: &Vec<u8>,
    value: &Vec<u8>,
    Ghost(f): Ghost<Fields>,
)
    requires
        tabulates(old(table)@, f),
    ensures
        tabulates(final(table)@, added(f, name@, value@)),
{
    let ghost before = table@;
    let mut i: usize = 0;
    while i < table.len()
        invariant
            i <= table@.len(),
            table@ == before,
            before == old(table)@,
            tabulates(before, f),
            forall|j: int| 0 <= j < i ==> precedes((#[trigger] before[j]).0@, name@),
        ensures
            i < before.len() ==> precedes(name@, before[i as int].0@),
        decreases table.len() - i,
    {
        match place(name.as_slice(), table[i].0.as_slice()) {
            Place::Before => {
                break;
            },
            Place::Same => {
                let (key, mut values) = table.remove(i);
                values.push(0);
                put_octets(&mut values, value.as_slice());
                assert(values@ =~= before[i as int].1@ + seq![0u8] + value@);
                table.insert(i, (key, values));
                proof {
                    assert(table@ =~= before.update(i as int, table@[i as int]));
                    lemma_table_entry_is_changed(before, table@, f, i as int, value@);
                }
                return ;
            },
            Place::After => {},
        }
        i += 1;
    }
    let key = name.clone();
    let first = value.clone();
    assert(key@ =~= name@);
    assert(first@ =~= value@);
    proof {
        lemma_table_entry_is_inserted(before, f, i as int, (key, first));
    }
    table.insert(i, (key, first));
}

/// Lists the fields of a map in increasing order of their names, each with its
/// values joined.
fn tabulate(headers: &HeaderMap) -> (table: Vec<(Vec<u8>, Vec<u8>)>)
    ensures
        tabulates(table@, fields(*headers)),
{
    let all = pairs(headers);
    let ghost views = all@.map_values(|p: (Vec<u8>, Vec<u8>)| pair_view(p));
    let mut table: Vec<(Vec<u8>, Vec<u8>)> = Vec::new();
    let mut i: usize = 0;
    assert(names_of(table@).to_set() =~= Set::empty());
    while i < all.len()
        invariant
            i <= all@.len(),
            views == all@.map_values(|p: (Vec<u8>, Vec<u8>)| pair_view(p)),
            tabulates(table@, gathered(views.take(i as int))),
        decreases all.len() - i,
    {
        let pair = &all[i];
        assert(views.take(i + 1).drop_last() == views.take(i as int));
        assert(views[i as int] == pair_view(*pair));
        enter(&mut table, &pair.0, &pair.1, Ghost(gathered(views.take(i as int))));
        i += 1;
    }
    assert(views.take(i as int) == views);
    table
}

/// Writes header fields as a block.
pub fn encode_headers(headers: &HeaderMap) -> (raw: Vec<u8>)
    ensures
        is_block_of(raw@, fields(*headers)),
{
    let table = tabulate(headers);
    let ghost f = fields(*headers);
    let ghost names = names_of(table@);
    let mut raw: Vec<u8> = Vec::new();
    put_length(&mut raw, table.len());
    let ghost head = raw@;
    let mut i: usize = 0;
    assert(names.take(0) == Seq::<Seq<u8>>::empty());
    while i < table.len()
        invariant
            i <= table@.len(),
            names == names_of(table@),
            tabulates(table@, f),
            raw@ == head + entries_octets(names.take(i as int), f),
        decreases table.len() - i,
    {
        let entry = &table[i];
        assert(names.take(i + 1).drop_last() == names.take(i as int));
        assert(names.take(i + 1).last() == entry.0@);
        put_length(&mut raw, entry.0.len());
        put_octets(&mut raw, entry.0.as_slice());
        put_length(&mut raw, entry.1.len());
        put_octets(&mut raw, entry.1.as_slice());
        assert(raw@ =~= head + entries_octets(names.take(i as int), f) + entry_octets(
            entry.0@,
            entry.1@,
        ));
        i += 1;
    }
    assert(names.take(i as int) == names);
    assert(lists_names(names, f));
    raw
}

/// Appends a length.
fn put_length(out: &mut Vec<u8>, n: usize)
    ensures
        final(out)@ == old(out)@ + length_octets(n as nat),
{
    put32(out, (n as u64 % 0x1_0000_0000) as u32);
}

/// Whether `f` can be read back: every name is valid and in lower case, and has
/// at least one value, all of them valid. A header map may hold a name that is
/// not valid, with a quotation mark in it.
pub open spec fn valid_fields(f: Fields) -> bool {
    forall|name: Seq<u8>| #[trigger]
        f.contains_key(name) ==> {
            &&& valid_name(name)
            &&& lower_name(name) == name
            &&& f[name].len() > 0
            &&& all_valid(f[name])
        }
}

/// Whether every length in a block of `f` can be written in 32 bits.
pub open spec fn fits_a_block(f: Fields) -> bool {
    &&& f.dom().len() < 0x1_0000_0000
    &&& forall|name: Seq<u8>| #[trigger]
        f.contains_key(name) ==> joined(f[name]).len() < 0x1_0000_0000
}

proof fn lemma_parts_of_front_and_value(front: Seq<u8>, value: Seq<u8>)
    requires
        valid_value(value),
    ensures
        parts(front + seq![0u8] + value) == parts(front).push(value),
    decreases value.len(),
{
    let s = front + seq![0u8] + value;
    if value.len() == 0 {
        assert(s.drop_last() =~= front);
        assert(value =~= Seq::empty());
    } else {
        let shorter = value.drop_last();
        assert(s.last() == value.last());
        assert(s.drop_last() =~= front + seq![0u8] + shorter);
        lemma_parts_of_front_and_value(front, shorter);
        assert(parts(front).push(shorter).drop_last() =~= parts(front));
        assert(shorter.push(value.last()) =~= value);
    }
}

proof fn lemma_parts_of_value(value: Seq<u8>)
    requires
        valid_value(value),
    ensures
        parts(value) == seq![value],
    decreases value.len(),
{
    if value.len() == 0 {
        assert(value =~= Seq::empty());
    } else {
        lemma_parts_of_value(value.drop_last());
        assert(value.drop_last().push(value.last()) =~= value);
        assert(parts(value) =~= seq![value]);
    }
}

/// Values that have been joined are found again by splitting.
pub proof fn law_joined_values_are_told_apart(values: Seq<Seq<u8>>)
    requires
        values.len() > 0,
        all_valid(values),
    ensures
        parts(joined(values)) == values,
    decreases values.len(),
{
    if values.len() == 1 {
        lemma_parts_of_value(values[0]);
        assert(seq![values[0]] =~= values);
    } else {
        law_joined_values_are_told_apart(values.drop_last());
        lemma_parts_of_front_and_value(joined(values.drop_last()), values.last());
        assert(values.drop_last().push(values.last()) =~= values);
    }
}

proof fn lemma_added_all_to_a_new_name(f: Fields, name: Seq<u8>, values: Seq<Seq<u8>>)
    requires
        !f.contains_key(name),
        values.len() > 0,
    ensures
        added_all(f, name, values) == f.insert(name, values),
    decreases values.len(),
{
    if values.len() == 1 {
        assert(added_all(f, name, values.drop_last()) == f);
        assert(seq![values.last()] =~= values);
    } else {
        lemma_added_all_to_a_new_name(f, name, values.drop_last());
        assert(values.drop_last().push(values.last()) =~= values);
        assert(added_all(f, name, values) =~= f.insert(name, values));
    }
}

proof fn lemma_entries_octets_from_the_front(names: Seq<Seq<u8>>, f: Fields)
    requires
        names.len() > 0,
    ensures
        entries_octets(names, f) == entry_octets(names[0], joined(f[names[0]])) + entries_octets(
            names.skip(1),
            f,
        ),
    decreases names.len(),
{
    let first = entry_octets(names[0], joined(f[names[0]]));
    if names.len() == 1 {
        assert(names.drop_last() =~= Seq::empty());
        assert(names.skip(1) =~= Seq::empty());
        assert(entries_octets(names, f) =~= first + entries_octets(names.skip(1), f));
    } else {
        lemma_entries_octets_from_the_front(names.drop_last(), f);
        assert(names.drop_last().skip(1) =~= names.skip(1).drop_last());
        assert(entries_octets(names, f) =~= first + entries_octets(names.skip(1), f));
    }
}

proof fn lemma_entry_is_read(name: Seq<u8>, value: Seq<u8>, after: Seq<u8>)
    requires
        name.len() < 0x1_0000_0000,
        value.len() < 0x1_0000_0000,
    ensures
        ({
            let s = entry_octets(name, value) + after;
            let n = name.len() as int;
            let v = value.len() as int;
            &&& s.len() == 8 + n + v + after.len()
            &&& be32_at(s, 0) == n
            &&& be32_at(s, 4 + n) == v
            &&& s.subrange(4, 4 + n) == name
            &&& s.subrange(8 + n, 8 + n + v) == value
            &&& s.skip(8 + n + v) == after
        }),
{
    let s = entry_octets(name, value) + after;
    let n = name.len() as int;
    let v = value.len() as int;
    assert(s.subrange(0, 4) =~= length_octets(name.len()));
    assert(s.subrange(4 + n, 8 + n) =~= length_octets(value.len()));
    law_be32_is_read_back(n as u32, s, 0);
    law_be32_is_read_back(v as u32, s, 4 + n);
    assert(s.subrange(4, 4 + n) =~= name);
    assert(s.subrange(8 + n, 8 + n + v) =~= value);
    assert(s.skip(8 + n + v) =~= after);
}

proof fn lemma_added_all_names(f: Fields, name: Seq<u8>, values: Seq<Seq<u8>>)
    ensures
        added_all(f, name, values).dom().subset_of(f.dom().insert(name)),
    decreases values.len(),
{
    if values.len() > 0 {
        lemma_added_all_names(f, name, values.drop_last());
    }
}

proof fn lemma_few_names_do_not_crowd(
    f: Fields,
    g: Fields,
    name: Seq<u8>,
    values: Seq<Seq<u8>>,
)
    requires
        f.dom().finite(),
        f.dom().len() < ROOM_FOR_NAMES,
        g.dom().subset_of(f.dom()),
        f.contains_key(name),
    ensures
        !crowds(g, name, values),
{
    assert forall|i: int| 0 <= i < values.len() implies (#[trigger] added_all(
        g,
        name,
        values.take(i),
    )).dom().len() < ROOM_FOR_NAMES by {
        lemma_added_all_names(g, name, values.take(i));
        vstd::set_lib::lemma_len_subset(added_all(g, name, values.take(i)).dom(), f.dom());
    }
}

proof fn lemma_rest_of_entries_is_read(names: Seq<Seq<u8>>, k: int, f: Fields)
    requires
        lists_names(names, f),
        valid_fields(f),
        fits_a_block(f),
        0 <= k <= names.len(),
    ensures
        entries_read(
            entries_octets(names.skip(k), f),
            (names.len() - k) as nat,
            f.restrict(names.take(k).to_set()),
        ) == Ok::<Fields, BlockFault>(f),
        f.dom().len() < ROOM_FOR_NAMES ==> !entries_crowd(
            entries_octets(names.skip(k), f),
            (names.len() - k) as nat,
            f.restrict(names.take(k).to_set()),
        ),
    decreases names.len() - k,
{
    let g = f.restrict(names.take(k).to_set());
    if k == names.len() {
        assert(names.take(k) =~= names);
        assert(g =~= f);
    } else {
        let rest = names.skip(k);
        let name = names[k];
        let value = joined(f[name]);
        assert(rest[0] == name);
        assert(rest.skip(1) =~= names.skip(k + 1));
        assert(names.to_set().contains(name));
        assert(f.contains_key(name));
        lemma_entries_octets_from_the_front(rest, f);
        let after = entries_octets(names.skip(k + 1), f);
        lemma_entry_is_read(name, value, after);
        law_joined_values_are_told_apart(f[name]);
        assert(!g.contains_key(name)) by {
            if names.take(k).contains(name) {
                let j = choose|j: int| 0 <= j < k && names.take(k)[j] == name;
                assert(names[j] == name);
                lemma_precedes_is_irreflexive(name);
                assert(precedes(names[j], names[k]));
            }
        }
        lemma_added_all_to_a_new_name(g, name, f[name]);
        if f.dom().len() < ROOM_FOR_NAMES {
            lemma_few_names_do_not_crowd(f, g, name, f[name]);
        }
        let wider = names.take(k + 1);
        assert(wider.to_set() =~= names.take(k).to_set().insert(name)) by {
            assert(wider =~= names.take(k).push(name));
            assert(wider[k] == name);
            assert forall|x: Seq<u8>| #[trigger] wider.to_set().contains(x) == names.take(
                k,
            ).to_set().insert(name).contains(x) by {
                if names.take(k).contains(x) {
                    let j = choose|j: int| 0 <= j < k && names.take(k)[j] == x;
                    assert(wider[j] == x);
                }
            }
        }
        assert(g.insert(name, f[name]) =~= f.restrict(wider.to_set()));
        lemma_rest_of_entries_is_read(names, k + 1, f);
    }
}

proof fn lemma_increasing_names_differ(names: Seq<Seq<u8>>)
    requires
        increasing(names),
    ensures
        names.no_duplicates(),
{
    assert forall|i: int, j: int| 0 <= i < j < names.len() implies names[i] != names[j] by {
        lemma_precedes_is_irreflexive(names[i]);
        assert(precedes(names[i], names[j]));
    }
}

proof fn lemma_count_is_read(n: nat, rest: Seq<u8>)
    requires
        n < 0x1_0000_0000,
    ensures
        (length_octets(n) + rest).len() >= 4,
        be32_at(length_octets(n) + rest, 0) == n,
        (length_octets(n) + rest).skip(4) == rest,
{
    assert((length_octets(n) + rest).subrange(0, 4) =~= length_octets(n));
    law_be32_is_read_back(n as u32, length_octets(n) + rest, 0);
    assert((length_octets(n) + rest).skip(4) =~= rest);
}

proof fn lemma_entries_are_read(names: Seq<Seq<u8>>, f: Fields)
    requires
        lists_names(names, f),
        valid_fields(f),
        fits_a_block(f),
    ensures
        entries_read(entries_octets(names, f), names.len(), Map::empty()) == Ok::<
            Fields,
            BlockFault,
        >(f),
        f.dom().len() < ROOM_FOR_NAMES ==> !entries_crowd(
            entries_octets(names, f),
            names.len(),
            Map::empty(),
        ),
{
    lemma_rest_of_entries_is_read(names, 0, f);
    assert(names.skip(0) =~= names);
    assert(names.take(0).to_set() =~= Set::empty());
    assert(f.restrict(names.take(0).to_set()) =~= Map::empty());
}

/// Header fields that have been written as a block are read back.
pub proof fn law_blocks_are_read_back(raw: Seq<u8>, f: Fields)
    requires
        is_block_of(raw, f),
        valid_fields(f),
        fits_a_block(f),
    ensures
        block_read(raw) == Ok::<Fields, BlockFault>(f),
{
    let names = choose|names: Seq<Seq<u8>>| #[trigger]
        lists_names(names, f) && raw == length_octets(names.len()) + entries_octets(names, f);
    lemma_increasing_names_differ(names);
    names.unique_seq_to_set();
    lemma_count_is_read(names.len(), entries_octets(names, f));
    lemma_entries_are_read(names, f);
}

/// A block of fewer than [`ROOM_FOR_NAMES`] names is never refused for their
/// number.
pub proof fn law_few_names_do_not_crowd(raw: Seq<u8>, f: Fields)
    requires
        is_block_of(raw, f),
        valid_fields(f),
        fits_a_block(f),
        f.dom().len() < 6554,
    ensures
        !block_crowds(raw),
{
    let names = choose|names: Seq<Seq<u8>>| #[trigger]
        lists_names(names, f) && raw == length_octets(names.len()) + entries_octets(names, f);
    lemma_increasing_names_differ(names);
    names.unique_seq_to_set();
    lemma_count_is_read(names.len(), entries_octets(names, f));
    lemma_entries_are_read(names, f);
}

/// The parts of an octet string, joined again, are that octet string: splitting
/// loses nothing. No part holds a zero octet.
pub proof fn law_parts_are_the_whole(s: Seq<u8>)
    ensures
        parts(s).len() > 0,
        joined(parts(s)) == s,
        forall|i: int| 0 <= i < parts(s).len() ==> !(#[trigger] parts(s)[i]).contains(0),
    decreases s.len(),
{
    if s.len() == 0 {
        assert(joined(parts(s)) =~= s);
    } else {
        let front = parts(s.drop_last());
        law_parts_are_the_whole(s.drop_last());
        if s.last() == 0 {
            let all = front.push(Seq::empty());
            assert(all.drop_last() =~= front);
            assert(joined(all) =~= s);
        } else {
            let last = front.last().push(s.last());
            let all = front.drop_last().push(last);
            assert(all.drop_last() =~= front.drop_last());
            if front.len() == 1 {
                assert(joined(front) == front.last());
                assert(front.last() == s.drop_last());
                assert(last =~= s);
                assert(joined(all) == all[0]);
            } else {
                assert(joined(front) == joined(front.drop_last()) + seq![0u8] + front.last());
                assert(joined(all) == joined(front.drop_last()) + seq![0u8] + last);
                assert(s =~= joined(front).push(s.last()));
                assert(joined(all) =~= s);
            }
            assert forall|i: int| 0 <= i < all.len() implies !(#[trigger] all[i]).contains(0) by {
                if i < all.len() - 1 {
                    assert(all[i] == front[i]);
                } else {
                    assert(!front[i].contains(0));
                    assert forall|j: int| 0 <= j < last.len() implies last[j] != 0 by {
                        if j < last.len() - 1 {
                            assert(front[i][j] == last[j]);
                        }
                    }
                }
            }
        }
    }
}

/// One value stands for itself; a further one follows behind a zero octet.
pub proof fn law_values_are_joined_by_zeros(values: Seq<Seq<u8>>, value: Seq<u8>)
    ensures
        joined(seq![value]) == value,
        values.len() > 0 ==> joined(values.push(value)) == joined(values) + seq![0u8] + value,
{
    if values.len() > 0 {
        assert(values.push(value).drop_last() =~= values);
    }
}

proof fn lemma_added_all(f: Fields, name: Seq<u8>, values: Seq<Seq<u8>>)
    requires
        values.len() > 0,
    ensures
        added_all(f, name, values) == f.insert(
            name,
            (if f.contains_key(name) {
                f[name]
            } else {
                Seq::empty()
            }) + values,
        ),
    decreases values.len(),
{
    let prior = if f.contains_key(name) {
        f[name]
    } else {
        Seq::empty()
    };
    if values.len() == 1 {
        assert(added_all(f, name, values.drop_last()) == f);
        assert(prior + values =~= prior.push(values.last()));
        assert(added_all(f, name, values) =~= f.insert(name, prior + values));
    } else {
        lemma_added_all(f, name, values.drop_last());
        assert((prior + values.drop_last()).push(values.last()) =~= prior + values);
        assert(added_all(f, name, values) =~= f.insert(name, prior + values));
    }
}

/// An entry adds the parts of its value, in order, behind those that its name in
/// lower case has already, and leaves every other name alone. One with a name or
/// a part that no header can have is refused. The entries that follow are read
/// in the same way.
pub proof fn law_entries_are_read_one_by_one(
    name: Seq<u8>,
    value: Seq<u8>,
    rest: Seq<u8>,
    count: nat,
    f: Fields,
)
    requires
        name.len() < 0x1_0000_0000,
        value.len() < 0x1_0000_0000,
    ensures
        ({
            let s = be32(name.len() as u32) + name + be32(value.len() as u32) + value + rest;
            let read = entries_read(s, count + 1, f);
            let prior = if f.contains_key(lower_name(name)) {
                f[lower_name(name)]
            } else {
                Seq::empty()
            };
            let valid = forall|i: int|
                0 <= i < parts(value).len() ==> valid_value(#[trigger] parts(value)[i]);
            &&& !valid_name(name) ==> read == Err::<Fields, BlockFault>(BlockFault::BadName)
            &&& valid_name(name) && !valid ==> read == Err::<Fields, BlockFault>(
                BlockFault::BadValue,
            )
            &&& valid_name(name) && valid ==> read == entries_read(
                rest,
                count,
                f.insert(lower_name(name), prior + parts(value)),
            )
            &&& entries_read(s, 0, f) == Ok::<Fields, BlockFault>(f)
        }),
{
    let s = be32(name.len() as u32) + name + be32(value.len() as u32) + value + rest;
    assert(s =~= entry_octets(name, value) + rest);
    lemma_entry_is_read(name, value, rest);
    law_parts_are_the_whole(value);
    lemma_added_all(f, lower_name(name), parts(value));
}

/// An entry that has been cut off is refused, wherever it ends.
pub proof fn law_cut_entries_are_refused(
    name: Seq<u8>,
    value: Seq<u8>,
    count: nat,
    f: Fields,
    k: int,
)
    requires
        name.len() < 0x1_0000_0000,
        value.len() < 0x1_0000_0000,
        0 <= k < 8 + name.len() + value.len(),
    ensures
        ({
            let s = be32(name.len() as u32) + name + be32(value.len() as u32) + value;
            entries_read(s.take(k), count + 1, f) == Err::<Fields, BlockFault>(
                if k < 4 {
                    BlockFault::NameLength
                } else if k < 4 + name.len() {
                    BlockFault::NameOctets
                } else if k < 8 + name.len() {
                    BlockFault::ValueLength
                } else {
                    BlockFault::ValueOctets
                },
            )
        }),
{
    let s = be32(name.len() as u32) + name + be32(value.len() as u32) + value;
    let cut = s.take(k);
    let n = name.len() as int;
    if k >= 4 {
        assert(cut.subrange(0, 4) =~= be32(name.len() as u32));
        law_be32_is_read_back(name.len() as u32, cut, 0);
    }
    if k >= 8 + n {
        assert(cut.subrange(4 + n, 8 + n) =~= be32(value.len() as u32));
        law_be32_is_read_back(value.len() as u32, cut, 4 + n);
    }
}

/// A block is read by its entries, as many as its first four octets say; one
/// that is shorter is refused.
pub proof fn law_blocks_start_with_their_count(count: u32, rest: Seq<u8>, short: Seq<u8>)
    requires
        short.len() < 4,
    ensures
        block_read(be32(count) + rest) == entries_read(rest, count as nat, Map::empty()),
        block_read(short) == Err::<Fields, BlockFault>(BlockFault::Short),
{
    let s = be32(count) + rest;
    assert(s.subrange(0, 4) =~= be32(count));
    law_be32_is_read_back(count, s, 0);
    assert(s.skip(4) =~= rest);
}

/// What follows the last entry makes no difference.
pub proof fn law_what_follows_the_entries_is_ignored(
    s: Seq<u8>,
    more: Seq<u8>,
    count: nat,
    f: Fields,
)
    requires
        entries_read(s, count, f) is Ok,
    ensures
        entries_read(s + more, count, f) == entries_read(s, count, f),
    decreases count,
{
    if count > 0 {
        let n = be32_at(s, 0);
        let v = be32_at(s, 4 + n);
        let t = s + more;
        assert(be32_at(t, 0) == n && (s.len() >= 8 + n ==> be32_at(t, 4 + n) == v)) by {
            reveal(be32_at);
        }
        assert(t.subrange(4, 4 + n) =~= s.subrange(4, 4 + n));
        assert(t.subrange(8 + n, 8 + n + v) =~= s.subrange(8 + n, 8 + n + v));
        assert(t.skip(8 + n + v) =~= s.skip(8 + n + v) + more);
        let value = s.subrange(8 + n, 8 + n + v);
        let name = s.subrange(4, 4 + n);
        law_what_follows_the_entries_is_ignored(
            s.skip(8 + n + v),
            more,
            (count - 1) as nat,
            added_all(f, lower_name(name), parts(value)),
        );
    }
}

/// Names are in the order of the first octets that differ, and a name comes
/// before every longer one that it starts.
pub proof fn law_names_are_in_octet_order(
    front: Seq<u8>,
    x: u8,
    y: u8,
    a: Seq<u8>,
    b: Seq<u8>,
)
    ensures
        x < y ==> precedes(front + seq![x] + a, front + seq![y] + b),
        x > y ==> !precedes(front + seq![x] + a, front + seq![y] + b),
        precedes(front, front + seq![x] + a),
        !precedes(front + seq![x] + a, front),
        !precedes(front, front),
{
    let n = front.len() as int;
    let p = front + seq![x] + a;
    let q = front + seq![y] + b;
    assert(p.take(n) =~= front && q.take(n) =~= front && front.take(n) =~= front);
    assert(p.skip(n)[0] == x && q.skip(n)[0] == y);
    assert(front.skip(n).len() == 0);
    lemma_precedes_after_common_front(p, q, n);
    lemma_precedes_after_common_front(front, p, n);
    lemma_precedes_after_common_front(p, front, n);
    lemma_precedes_is_irreflexive(front);
}

proof fn lemma_first_name_decides(names: Seq<Seq<u8>>, other: Seq<Seq<u8>>)
    requires
        increasing(names),
        increasing(other),
        names.to_set() == other.to_set(),
    ensures
        names == other,
    decreases names.len(),
{
    if names.len() == 0 || other.len() == 0 {
        if names.len() > 0 {
            assert(names.to_set().contains(names[0]));
            assert(other.contains(names[0]));
        }
        if other.len() > 0 {
            assert(other.to_set().contains(other[0]));
            assert(names.contains(other[0]));
        }
        assert(names =~= other);
    } else {
        let a = names[0];
        let b = other[0];
        lemma_precedes_is_irreflexive(a);
        assert(names.to_set().contains(a));
        assert(other.to_set().contains(b));
        let i = choose|i: int| 0 <= i < other.len() && other[i] == a;
        let j = choose|j: int| 0 <= j < names.len() && names[j] == b;
        assert(a == b) by {
            if i > 0 && j > 0 {
                assert(precedes(other[0], other[i]));
                assert(precedes(names[0], names[j]));
                lemma_precedes_is_transitive(a, b, a);
            }
        }
        let names1 = names.skip(1);
        let other1 = other.skip(1);
        assert forall|x: Seq<u8>| names1.contains(x) == other1.contains(x) by {
            if names1.contains(x) {
                let k = choose|k: int| 0 <= k < names1.len() && names1[k] == x;
                assert(names[k + 1] == x);
                assert(precedes(names[0], names[k + 1]));
                assert(names.to_set().contains(x));
                let l = choose|l: int| 0 <= l < other.len() && other[l] == x;
                assert(other1[l - 1] == x);
            }
            if other1.contains(x) {
                let k = choose|k: int| 0 <= k < other1.len() && other1[k] == x;
                assert(other[k + 1] == x);
                assert(precedes(other[0], other[k + 1]));
                assert(other.to_set().contains(x));
                let l = choose|l: int| 0 <= l < names.len() && names[l] == x;
                assert(names1[l - 1] == x);
            }
        }
        assert(names1.to_set() =~= other1.to_set());
        assert forall|k: int, l: int| 0 <= k < l < names1.len() implies precedes(
            #[trigger] names1[k],
            #[trigger] names1[l],
        ) by {
            assert(precedes(names[k + 1], names[l + 1]));
        }
        assert forall|k: int, l: int| 0 <= k < l < other1.len() implies precedes(
            #[trigger] other1[k],
            #[trigger] other1[l],
        ) by {
            assert(precedes(other[k + 1], other[l + 1]));
        }
        lemma_first_name_decides(names1, other1);
        assert(names =~= seq![a] + names1);
        assert(other =~= seq![b] + other1);
    }
}

/// Header fields are written in one way only, and their number in front.
pub proof fn law_blocks_are_unique(raw: Seq<u8>, other: Seq<u8>, f: Fields)
    requires
        is_block_of(raw, f),
        is_block_of(other, f),
        f.dom().len() < 0x1_0000_0000,
    ensures
        raw == other,
        raw.len() >= 4,
        be32_at(raw, 0) == f.dom().len(),
{
    let names = choose|names: Seq<Seq<u8>>| #[trigger]
        lists_names(names, f) && raw == length_octets(names.len()) + entries_octets(names, f);
    let names2 = choose|names: Seq<Seq<u8>>| #[trigger]
        lists_names(names, f) && other == length_octets(names.len()) + entries_octets(names, f);
    lemma_first_name_decides(names, names2);
    lemma_increasing_names_differ(names);
    names.unique_seq_to_set();
    lemma_count_is_read(names.len(), entries_octets(names, f));
}

proof fn lemma_front_name_joins(name: Seq<u8>, names: Seq<Seq<u8>>, f: Fields)
    requires
        f.contains_key(name),
        lists_names(names, f.remove(name)),
        forall|x: Seq<u8>| #[trigger] f.contains_key(x) && x != name ==> precedes(name, x),
    ensures
        lists_names(seq![name] + names, f),
{
    let all = seq![name] + names;
    assert forall|i: int| 0 <= i < names.len() implies precedes(name, #[trigger] names[i]) by {
        assert(names.to_set().contains(names[i]));
        assert(f.contains_key(names[i]));
    }
    assert(all.to_set() =~= f.dom()) by {
        assert forall|x: Seq<u8>| #[trigger] all.to_set().contains(x) == f.dom().contains(x) by {
            if x == name {
                assert(all[0] == x);
            } else if f.contains_key(x) {
                assert(names.to_set().contains(x));
                let i = choose|i: int| 0 <= i < names.len() && names[i] == x;
                assert(all[i + 1] == x);
            }
            if all.contains(x) {
                let i = choose|i: int| 0 <= i < all.len() && all[i] == x;
                if i > 0 {
                    assert(names[i - 1] == x);
                    assert(names.to_set().contains(x));
                }
            }
        }
    }
    assert forall|i: int, j: int| 0 <= i < j < all.len() implies precedes(
        #[trigger] all[i],
        #[trigger] all[j],
    ) by {
        if i == 0 {
            assert(all[j] == names[j - 1]);
        } else {
            assert(precedes(names[i - 1], names[j - 1]));
        }
    }
}

proof fn lemma_entries_of_other_names(names: Seq<Seq<u8>>, f: Fields, name: Seq<u8>)
    requires
        !names.contains(name),
    ensures
        entries_octets(names, f.remove(name)) == entries_octets(names, f),
    decreases names.len(),
{
    if names.len() > 0 {
        assert(names[names.len() - 1] == names.last());
        assert(names.contains(names.last()));
        assert(!names.drop_last().contains(name)) by {
            if names.drop_last().contains(name) {
                let i = choose|i: int|
                    0 <= i < names.drop_last().len() && names.drop_last()[i] == name;
                assert(names[i] == name);
            }
        }
        lemma_entries_of_other_names(names.drop_last(), f, name);
    }
}

proof fn lemma_block_by_its_names(raw: Seq<u8>, names: Seq<Seq<u8>>, f: Fields)
    requires
        is_block_of(raw, f),
        lists_names(names, f),
    ensures
        raw == length_octets(names.len()) + entries_octets(names, f),
        names.len() == f.dom().len(),
{
    let listed = choose|listed: Seq<Seq<u8>>| #[trigger]
        lists_names(listed, f) && raw == length_octets(listed.len()) + entries_octets(listed, f);
    lemma_first_name_decides(names, listed);
    lemma_increasing_names_differ(names);
    names.unique_seq_to_set();
}

/// The block of no fields is a count of zero.
pub proof fn law_no_fields_make_an_empty_block(raw: Seq<u8>)
    requires
        is_block_of(raw, Map::empty()),
    ensures
        raw == be32(0),
{
    let names = Seq::<Seq<u8>>::empty();
    assert(names.to_set() =~= Map::<Seq<u8>, Seq<Seq<u8>>>::empty().dom());
    lemma_block_by_its_names(raw, names, Map::empty());
    assert(raw =~= be32(0));
}

/// The field whose name comes first is written first, with its values joined;
/// the other fields follow as they do in a block of their own.
pub proof fn law_blocks_grow_by_entries(name: Seq<u8>, f: Fields, raw: Seq<u8>, other: Seq<u8>)
    requires
        is_block_of(raw, f),
        is_block_of(other, f.remove(name)),
        f.contains_key(name),
        f.dom().len() < 0x1_0000_0000,
        forall|x: Seq<u8>| #[trigger] f.contains_key(x) && x != name ==> precedes(name, x),
        name.len() < 0x1_0000_0000,
        joined(f[name]).len() < 0x1_0000_0000,
    ensures
        raw == be32(f.dom().len() as u32) + (be32(name.len() as u32) + name + be32(
            joined(f[name]).len() as u32,
        ) + joined(f[name])) + other.skip(4),
{
    let names = choose|names: Seq<Seq<u8>>| #[trigger]
        lists_names(names, f.remove(name)) && other == length_octets(names.len())
            + entries_octets(names, f.remove(name));
    lemma_block_with_a_front_name(name, names, f, raw, other);
    assert(length_octets(f.dom().len()) == be32(f.dom().len() as u32));
    assert(length_octets(name.len()) == be32(name.len() as u32));
    assert(length_octets(joined(f[name]).len()) == be32(joined(f[name]).len() as u32));
}

proof fn lemma_block_with_a_front_name(
    name: Seq<u8>,
    names: Seq<Seq<u8>>,
    f: Fields,
    raw: Seq<u8>,
    other: Seq<u8>,
)
    requires
        is_block_of(raw, f),
        lists_names(names, f.remove(name)),
        other == length_octets(names.len()) + entries_octets(names, f.remove(name)),
        f.contains_key(name),
        forall|x: Seq<u8>| #[trigger] f.contains_key(x) && x != name ==> precedes(name, x),
    ensures
        raw == length_octets(f.dom().len()) + entry_octets(name, joined(f[name])) + other.skip(4),
{
    let all = seq![name] + names;
    assert(!names.contains(name)) by {
        if names.contains(name) {
            assert(names.to_set().contains(name));
        }
    }
    lemma_front_name_joins(name, names, f);
    lemma_entries_of_other_names(names, f, name);
    lemma_block_by_its_names(raw, all, f);
    lemma_entries_octets_from_the_front(all, f);
    assert(all.skip(1) =~= names);
    assert(all[0] == name);
    lemma_assembled(
        raw,
        length_octets(all.len()),
        entry_octets(name, joined(f[name])),
        entries_octets(names, f),
        length_octets(names.len()),
    );
}

proof fn lemma_assembled(
    raw: Seq<u8>,
    count: Seq<u8>,
    entry: Seq<u8>,
    rest: Seq<u8>,
    other_count: Seq<u8>,
)
    requires
        raw == count + (entry + rest),
        other_count.len() == 4,
    ensures
        raw == count + entry + (other_count + rest).skip(4),
{
    assert((other_count + rest).skip(4) =~= rest);
    assert(raw =~= count + entry + rest);
}

/// What a result reports is what was read: the fields, or the fault with its
/// text.
pub proof fn law_block_reports_are_faithful(
    r: Result<HeaderMap, Error>,
    f: Fields,
    fault: BlockFault,
)
    ensures
        reports(r, Ok(f)) <==> r is Ok && fields(r->Ok_0) == f,
        reports(r, Err(fault)) <==> match r {
            Err(Error::Protocol(m)) => m@ == fault.text(),
            _ => false,
        },
{
}

proof fn lemma_short_entries_do_not_crowd(s: Seq<u8>, count: nat, f: Fields)
    requires
        f.dom().finite(),
        9 * f.dom().len() + s.len() < 9 * ROOM_FOR_NAMES,
    ensures
        !entries_crowd(s, count, f),
    decreases count,
{
    let n = be32_at(s, 0);
    let v = be32_at(s, 4 + n);
    let name = s.subrange(4, 4 + n);
    let values = parts(s.subrange(8 + n, 8 + n + v));
    if count > 0 && s.len() >= 4 && s.len() >= 8 + n && s.len() >= 8 + n + v && valid_name(name) {
        let wider = f.insert(lower_name(name), Seq::empty());
        assert(name.len() == n);
        assert(wider.dom().len() <= f.dom().len() + 1);
        lemma_few_names_do_not_crowd(wider, f, lower_name(name), values);
        let next = added_all(f, lower_name(name), values);
        lemma_added_all_names(f, lower_name(name), values);
        vstd::set_lib::lemma_len_subset(next.dom(), wider.dom());
        lemma_short_entries_do_not_crowd(s.skip(8 + n + v), (count - 1) as nat, next);
    }
}

/// A block shorter than nine times [`ROOM_FOR_NAMES`] octets is never refused for
/// the number of its names: an entry takes nine octets or more.
pub proof fn law_short_blocks_do_not_crowd(raw: Seq<u8>)
    requires
        raw.len() < 58990,
    ensures
        !block_crowds(raw),
{
    if raw.len() >= 4 {
        lemma_short_entries_do_not_crowd(raw.skip(4), be32_at(raw, 0) as nat, Map::empty());
    }
}

} // verus!
