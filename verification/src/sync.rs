use vstd::prelude::*;

verus! {

use vstd::arithmetic::div_mod::{lemma_div_is_ordered, lemma_div_pos_is_pos};
use vstd::string::StringSliceAdditionalSpecFns;
use vstd::utf8::{decode_utf8, encode_utf8, valid_utf8};

use crate::editor::{edit_step, EditorEvent, MusicCommand};
use crate::time::SeekableTimeSource;

use crate::binary::{
    lemma_u16_le_inverse,
    lemma_u16_le_round_trip,
    lemma_u32_le_inverse,
    lemma_u32_le_round_trip,
    push_bytes,
    read_u16,
    read_u32,
    u16_from_le,
    u16_le_bytes,
    u32_from_le,
    u32_le_bytes,
    write_u16,
    write_u32,
};

/// A keyframe: an integer row position and the 32-bit parameter value at
/// that row, carried as its IEEE-754 bit pattern so the store itself stays
/// free of float arithmetic.
#[derive(PartialEq, Eq, Structural, Clone, Copy, Debug)]
pub struct Key {
    pub row: u32,
    pub value: u32,
}

/// Rows strictly increase along a track: sorted, and no duplicate rows.
pub open spec fn keys_sorted(s: Seq<Key>) -> bool {
    forall|i: int, j: int| 0 <= i < j < s.len() ==> s[i].row < s[j].row
}

/// The value stored at exactly `row`, if any key sits there.
pub open spec fn key_lookup(s: Seq<Key>, row: u32) -> Option<u32>
    decreases s.len(),
{
    if s.len() == 0 {
        None
    } else if s[0].row == row {
        Some(s[0].value)
    } else {
        key_lookup(s.skip(1), row)
    }
}

/// How many keys sit at exactly `row`.
pub open spec fn key_count_at(s: Seq<Key>, row: u32) -> nat
    decreases s.len(),
{
    if s.len() == 0 {
        0
    } else {
        (if s[0].row == row {
            1nat
        } else {
            0nat
        }) + key_count_at(s.skip(1), row)
    }
}

/// Inserting a key at `row`, overwriting an existing key at the same row and
/// keeping the sequence sorted by row.
pub open spec fn key_insert(s: Seq<Key>, row: u32, value: u32) -> Seq<Key>
    decreases s.len(),
{
    if s.len() == 0 {
        seq![Key { row, value }]
    } else if s[0].row < row {
        seq![s[0]] + key_insert(s.skip(1), row, value)
    } else if s[0].row == row {
        seq![Key { row, value }] + s.skip(1)
    } else {
        seq![Key { row, value }] + s
    }
}

/// Inserting keeps the keys sorted, never shrinks the sequence, and every
/// row present afterwards is no smaller than the smallest row present
/// before, the new one included.
pub proof fn lemma_key_insert_sorted(s: Seq<Key>, row: u32, value: u32)
    requires
        keys_sorted(s),
    ensures
        keys_sorted(key_insert(s, row, value)),
        key_insert(s, row, value).len() >= s.len(),
        forall|j: int|
            0 <= j < key_insert(s, row, value).len() ==> (#[trigger] key_insert(
                s,
                row,
                value,
            )[j].row == row || (exists|k: int|
                0 <= k < s.len() && s[k].row == key_insert(s, row, value)[j].row)),
        forall|j: int|
            0 <= j < key_insert(s, row, value).len() ==> #[trigger] key_insert(
                s,
                row,
                value,
            )[j].row >= vstd::math::min(
                row as int,
                if s.len() == 0 {
                    row as int
                } else {
                    s[0].row as int
                },
            ),
    decreases s.len(),
{
    let r = key_insert(s, row, value);
    if s.len() == 0 {
    } else if s[0].row < row {
        lemma_key_insert_sorted(s.skip(1), row, value);
        assert forall|j: int| 0 <= j < r.len() implies (r[j].row == row || (exists|k: int|
            0 <= k < s.len() && s[k].row == r[j].row)) by {
            if j > 0 {
                let inner = key_insert(s.skip(1), row, value);
                assert(r[j] == inner[j - 1]);
                if inner[j - 1].row != row {
                    let k = choose|k: int|
                        0 <= k < s.skip(1).len() && s.skip(1)[k].row == inner[j - 1].row;
                    assert(s[k + 1].row == r[j].row);
                }
            }
        }
    } else {
    }
}

/// Setting the same row twice keeps only the second value: the first write
/// vanishes from the result entirely.
pub proof fn lemma_key_insert_overwrite(s: Seq<Key>, row: u32, v1: u32, v2: u32)
    requires
        keys_sorted(s),
    ensures
        key_insert(key_insert(s, row, v1), row, v2) == key_insert(s, row, v2),
    decreases s.len(),
{
    let first = key_insert(s, row, v1);
    if s.len() == 0 {
        assert(key_insert(first, row, v2) =~= key_insert(s, row, v2));
    } else if s[0].row < row {
        lemma_key_insert_overwrite(s.skip(1), row, v1, v2);
        assert(first[0] == s[0]);
        assert(first.skip(1) =~= key_insert(s.skip(1), row, v1));
        assert(key_insert(first, row, v2) =~= seq![s[0]] + key_insert(
            key_insert(s.skip(1), row, v1),
            row,
            v2,
        ));
        assert(key_insert(first, row, v2) =~= key_insert(s, row, v2));
    } else if s[0].row == row {
        assert(first[0].row == row);
        assert(first.skip(1) =~= s.skip(1));
        assert(key_insert(first, row, v2) =~= key_insert(s, row, v2));
    } else {
        assert(first[0].row == row);
        assert(first.skip(1) =~= s);
        assert(key_insert(first, row, v2) =~= key_insert(s, row, v2));
    }
}

/// Looking up the row just written gives the value just written.
pub proof fn lemma_key_insert_lookup(s: Seq<Key>, row: u32, value: u32)
    ensures
        key_lookup(key_insert(s, row, value), row) == Some(value),
    decreases s.len(),
{
    let r = key_insert(s, row, value);
    if s.len() == 0 {
    } else if s[0].row < row {
        lemma_key_insert_lookup(s.skip(1), row, value);
        assert(r[0] == s[0]);
        assert(r.skip(1) =~= key_insert(s.skip(1), row, value));
    } else {
    }
}

/// No key in `s` sits at `row`, so none is counted.
proof fn lemma_key_count_absent(s: Seq<Key>, row: u32)
    requires
        forall|i: int| 0 <= i < s.len() ==> s[i].row != row,
    ensures
        key_count_at(s, row) == 0,
    decreases s.len(),
{
    if s.len() > 0 {
        lemma_key_count_absent(s.skip(1), row);
    }
}

/// After an insert at `row` into a sorted sequence, exactly one key sits at
/// `row`.
pub proof fn lemma_key_insert_count(s: Seq<Key>, row: u32, value: u32)
    requires
        keys_sorted(s),
    ensures
        key_count_at(key_insert(s, row, value), row) == 1,
    decreases s.len(),
{
    let r = key_insert(s, row, value);
    assert(r.len() > 0);
    assert(key_count_at(r, row) == (if r[0].row == row {
        1nat
    } else {
        0nat
    }) + key_count_at(r.skip(1), row));
    if s.len() == 0 {
        assert(r.skip(1) =~= Seq::<Key>::empty());
        assert(key_count_at(r.skip(1), row) == 0);
    } else if s[0].row < row {
        lemma_key_insert_count(s.skip(1), row, value);
        assert(r[0] == s[0]);
        assert(r.skip(1) =~= key_insert(s.skip(1), row, value));
        assert(key_count_at(r.skip(1), row) == 1);
    } else if s[0].row == row {
        assert(r[0].row == row);
        assert(r.skip(1) =~= s.skip(1));
        assert forall|i: int| 0 <= i < s.skip(1).len() implies s.skip(1)[i].row != row by {
            assert(s.skip(1)[i] == s[i + 1]);
        }
        lemma_key_count_absent(s.skip(1), row);
    } else {
        assert(r[0].row == row);
        assert(r.skip(1) =~= s);
        assert forall|i: int| 0 <= i < s.len() implies s[i].row != row by {
            if i > 0 {
                assert(s[0].row < s[i].row);
            }
        }
        lemma_key_count_absent(s, row);
    }
}

/// Keyframe idempotence law: writing the same row and value twice changes
/// nothing the second time, the key count included, and the lookup at that
/// row yields the written value.
pub proof fn lemma_set_value_idempotent(s: Seq<Key>, row: u32, value: u32)
    requires
        keys_sorted(s),
    ensures
        key_insert(key_insert(s, row, value), row, value) == key_insert(s, row, value),
        key_lookup(key_insert(s, row, value), row) == Some(value),
{
    lemma_key_insert_overwrite(s, row, value, value);
    lemma_key_insert_lookup(s, row, value);
}

/// Keyframe overwrite law: writing `v1` then `v2` at the same row leaves
/// exactly one key at that row, holding `v2`, and the track stays sorted by
/// row.
pub proof fn lemma_set_value_overwrite(s: Seq<Key>, row: u32, v1: u32, v2: u32)
    requires
        keys_sorted(s),
    ensures
        key_insert(key_insert(s, row, v1), row, v2) == key_insert(s, row, v2),
        key_count_at(key_insert(key_insert(s, row, v1), row, v2), row) == 1,
        key_lookup(key_insert(key_insert(s, row, v1), row, v2), row) == Some(v2),
        keys_sorted(key_insert(key_insert(s, row, v1), row, v2)),
{
    lemma_key_insert_overwrite(s, row, v1, v2);
    lemma_key_insert_count(s, row, v2);
    lemma_key_insert_lookup(s, row, v2);
    lemma_key_insert_sorted(s, row, v2);
}

#[verifier::external_type_specification]
#[verifier::external_body]
pub struct ExFromUtf8Error(std::string::FromUtf8Error);

/// Relies on String::from_utf8: it succeeds exactly on valid UTF-8 input
/// and then holds the characters those bytes encode.
pub assume_specification[ String::from_utf8 ](bytes: Vec<u8>) -> (r: Result<
    String,
    std::string::FromUtf8Error,
>)
    ensures
        r is Ok <==> valid_utf8(bytes@),
        r matches Ok(s) ==> s@ == decode_utf8(bytes@),
;

/// Serialized form of one keyframe: the four row bytes, then the four value
/// bytes, little endian.
pub open spec fn key_bytes(k: Key) -> Seq<u8> {
    u32_le_bytes(k.row) + u32_le_bytes(k.value)
}

/// The keyframe read back from eight little-endian bytes.
pub open spec fn key_from_bytes(b: Seq<u8>) -> Key {
    Key {
        row: u32_from_le(b[0], b[1], b[2], b[3]) as u32,
        value: u32_from_le(b[4], b[5], b[6], b[7]) as u32,
    }
}

/// Serialized form of a run of keyframes, in order.
pub open spec fn keys_bytes(s: Seq<Key>) -> Seq<u8>
    decreases s.len(),
{
    if s.len() == 0 {
        Seq::empty()
    } else {
        key_bytes(s[0]) + keys_bytes(s.skip(1))
    }
}

/// Binary key round trip: decoding an encoded keyframe reproduces its row
/// and value exactly.
pub proof fn lemma_key_round_trip(k: Key)
    ensures
        key_from_bytes(key_bytes(k)) == k,
{
    lemma_u32_le_round_trip(k.row);
    lemma_u32_le_round_trip(k.value);
}

/// Re-encoding the keyframe read from eight bytes gives those bytes back.
pub proof fn lemma_key_bytes_inverse(b: Seq<u8>)
    requires
        b.len() == 8,
    ensures
        key_bytes(key_from_bytes(b)) =~= b,
{
    lemma_u32_le_inverse(b[0], b[1], b[2], b[3]);
    lemma_u32_le_inverse(b[4], b[5], b[6], b[7]);
}

impl Key {
    /// Append this key's binary form.
    pub fn write(&self, out: &mut Vec<u8>)
        ensures
            final(out)@ == old(out)@ + key_bytes(*self),
    {
        write_u32(out, self.row);
        write_u32(out, self.value);
        assert(out@ =~= old(out)@ + key_bytes(*self));
    }

    /// Read a key back from its eight bytes at `off`.
    pub fn read(data: &Vec<u8>, off: usize) -> (k: Key)
        requires
            off + 8 <= data@.len(),
        ensures
            k == key_from_bytes(data@.subrange(off as int, off as int + 8)),
    {
        let _n = data.len();
        let row = read_u32(data, off);
        let value = read_u32(data, off + 4);
        proof {
            let sub = data@.subrange(off as int, off as int + 8);
            assert(sub[0] == data@[off as int]);
            assert(sub[4] == data@[off as int + 4]);
        }
        Key { row, value }
    }
}

/// Splitting an insert around a prefix of rows all smaller than the new
/// row: the prefix is kept verbatim and the insert happens in the rest.
proof fn lemma_key_insert_split(s: Seq<Key>, row: u32, value: u32, i: int)
    requires
        0 <= i <= s.len(),
        forall|k: int| 0 <= k < i ==> s[k].row < row,
    ensures
        key_insert(s, row, value) == s.take(i) + key_insert(s.skip(i), row, value),
    decreases i,
{
    if i == 0 {
        assert(s.skip(0) =~= s);
        assert(s.take(0) + key_insert(s, row, value) =~= key_insert(s, row, value));
    } else {
        assert(s[0].row < row);
        assert forall|k: int| 0 <= k < i - 1 implies s.skip(1)[k].row < row by {
            assert(s.skip(1)[k] == s[k + 1]);
        }
        lemma_key_insert_split(s.skip(1), row, value, i - 1);
        assert(s.skip(1).take(i - 1) =~= s.take(i).skip(1));
        assert(s.skip(1).skip(i - 1) =~= s.skip(i));
        assert(seq![s[0]] + (s.skip(1).take(i - 1) + key_insert(s.skip(i), row, value)) =~= s.take(
            i,
        ) + key_insert(s.skip(i), row, value));
    }
}

/// A named, independently authored sequence of keyframes controlling one
/// scalar parameter over the production. Keys stay sorted by row; an
/// existing key at a row is overwritten, never duplicated.
#[derive(Debug)]
pub struct Track {
    name: String,
    values: Vec<Key>,
}

impl Track {
    /// The track's name, as a character sequence.
    pub closed spec fn spec_name(&self) -> Seq<char> {
        self.name@
    }

    /// The track's keys, in storage order.
    pub closed spec fn spec_keys(&self) -> Seq<Key> {
        self.values@
    }

    /// Well-formed: rows strictly increase through the keys.
    pub open spec fn wf(&self) -> bool {
        keys_sorted(self.spec_keys())
    }

    /// An empty track with the given name.
    pub fn new(name: String) -> (t: Track)
        ensures
            t.spec_name() == name@,
            t.spec_keys() == Seq::<Key>::empty(),
            t.wf(),
    {
        Track { name, values: Vec::new() }
    }

    /// The track's name.
    pub fn name(&self) -> (r: &str)
        ensures
            r@ == self.spec_name(),
    {
        self.name.as_str()
    }

    /// The keys, for read-only walking.
    pub fn keys(&self) -> (r: &Vec<Key>)
        ensures
            r@ == self.spec_keys(),
    {
        &self.values
    }

    /// Exact-row lookup only: the value of the key sitting precisely at
    /// `row`, or nothing — a missing keyframe is a silent no-op, not an
    /// error. Held or interpolated values are the caller's policy.
    pub fn get_value(&self, row: u32) -> (r: Option<u32>)
        ensures
            r == key_lookup(self.spec_keys(), row),
    {
        let n = self.values.len();
        let mut i: usize = 0;
        proof {
            assert(self.values@.skip(0) =~= self.values@);
        }
        while i < n
            invariant
                0 <= i <= n,
                n == self.values@.len(),
                key_lookup(self.values@, row) == key_lookup(self.values@.skip(i as int), row),
            decreases n - i,
        {
            if self.values[i].row == row {
                return Some(self.values[i].value);
            }
            proof {
                assert(self.values@.skip(i as int).skip(1) =~= self.values@.skip(i as int + 1));
            }
            i = i + 1;
        }
        None
    }

    /// Insert or overwrite the keyframe at `row`, keeping the keys sorted.
    pub fn set_value(&mut self, row: u32, value: u32)
        requires
            old(self).wf(),
        ensures
            final(self).wf(),
            final(self).spec_keys() == key_insert(old(self).spec_keys(), row, value),
            final(self).spec_name() == old(self).spec_name(),
    {
        let ghost s = self.values@;
        let n = self.values.len();
        let mut i: usize = 0;
        while i < n && self.values[i].row < row
            invariant
                0 <= i <= n,
                n == s.len(),
                s == self.values@,
                forall|k: int| 0 <= k < i ==> s[k].row < row,
            decreases n - i,
        {
            i = i + 1;
        }
        proof {
            lemma_key_insert_split(s, row, value, i as int);
            lemma_key_insert_sorted(s, row, value);
        }
        if i < n && self.values[i].row == row {
            self.values.set(i, Key { row, value });
            proof {
                assert(s.skip(i as int).skip(1) =~= s.skip(i as int + 1));
                assert(s.take(i as int) + (seq![Key { row, value }] + s.skip(i as int + 1))
                    =~= s.update(i as int, Key { row, value }));
            }
        } else {
            self.values.insert(i, Key { row, value });
            proof {
                if i < n {
                    assert(s.skip(i as int)[0] == s[i as int]);
                    assert(s.take(i as int) + (seq![Key { row, value }] + s.skip(i as int))
                        =~= s.insert(i as int, Key { row, value }));
                } else {
                    assert(s.skip(i as int).len() == 0);
                    assert(s.take(i as int) + seq![Key { row, value }] =~= s.insert(
                        i as int,
                        Key { row, value },
                    ));
                }
            }
        }
    }
}

/// Serialized form of a track: the name's UTF-8 bytes behind their 16-bit
/// byte count, then the 32-bit key count, then the keys.
pub open spec fn track_bytes(name: Seq<char>, keys: Seq<Key>) -> Seq<u8> {
    u16_le_bytes(encode_utf8(name).len() as u16) + encode_utf8(name) + u32_le_bytes(
        keys.len() as u32,
    ) + keys_bytes(keys)
}

/// Whether a track fits the binary framing: name bytes countable in sixteen
/// bits and keys countable in thirty-two.
pub open spec fn track_encodable(name: Seq<char>, keys: Seq<Key>) -> bool {
    encode_utf8(name).len() <= u16::MAX && keys.len() <= u32::MAX
}

/// Extending a run of encoded keys by one more key.
proof fn lemma_keys_bytes_snoc(s: Seq<Key>, i: int)
    requires
        0 <= i < s.len(),
    ensures
        keys_bytes(s.take(i + 1)) == keys_bytes(s.take(i)) + key_bytes(s[i]),
    decreases i,
{
    if i == 0 {
        assert(s.take(1) =~= seq![s[0]]);
        assert(seq![s[0]].skip(1) =~= Seq::<Key>::empty());
        assert(s.take(0) =~= Seq::<Key>::empty());
        assert(keys_bytes(s.take(0)) + key_bytes(s[0]) =~= key_bytes(s[0]) + keys_bytes(
            seq![s[0]].skip(1),
        ));
    } else {
        lemma_keys_bytes_snoc(s.skip(1), i - 1);
        assert(s.skip(1).take(i) =~= s.take(i + 1).skip(1));
        assert(s.skip(1).take(i - 1) =~= s.take(i).skip(1));
        assert(s.skip(1)[i - 1] == s[i]);
        assert(s.take(i + 1)[0] == s[0]);
        assert(s.take(i)[0] == s[0]);
        assert(key_bytes(s[0]) + (keys_bytes(s.take(i).skip(1)) + key_bytes(s[i])) =~= (key_bytes(
            s[0],
        ) + keys_bytes(s.take(i).skip(1))) + key_bytes(s[i]));
    }
}

impl Track {
    /// Append this track's binary form, or report that it cannot be framed:
    /// a name of more than sixty-five thousand five hundred thirty-five
    /// UTF-8 bytes, or more keys than a 32-bit count holds. On refusal the
    /// buffer is untouched.
    pub fn write(&self, out: &mut Vec<u8>) -> (ok: bool)
        ensures
            ok == track_encodable(self.spec_name(), self.spec_keys()),
            ok ==> final(out)@ == old(out)@ + track_bytes(self.spec_name(), self.spec_keys()),
            !ok ==> final(out)@ == old(out)@,
    {
        let name_bytes: &[u8] = self.name.as_str().as_bytes();
        if name_bytes.len() > u16::MAX as usize {
            return false;
        }
        if self.values.len() > u32::MAX as usize {
            return false;
        }
        let ghost prefix = out@;
        write_u16(out, name_bytes.len() as u16);
        push_bytes(out, name_bytes);
        write_u32(out, self.values.len() as u32);
        let ghost mid = out@;
        let n = self.values.len();
        let mut i: usize = 0;
        proof {
            assert(self.values@.take(0) =~= Seq::<Key>::empty());
            assert(mid + keys_bytes(self.values@.take(0)) =~= mid);
        }
        while i < n
            invariant
                0 <= i <= n,
                n == self.values@.len(),
                out@ == mid + keys_bytes(self.values@.take(i as int)),
            decreases n - i,
        {
            let ghost before = out@;
            self.values[i].write(out);
            proof {
                lemma_keys_bytes_snoc(self.values@, i as int);
                assert(mid + keys_bytes(self.values@.take(i as int)) + key_bytes(
                    self.values@[i as int],
                ) =~= mid + keys_bytes(self.values@.take(i as int + 1)));
            }
            i = i + 1;
        }
        proof {
            assert(self.values@.take(n as int) =~= self.values@);
            assert(prefix + u16_le_bytes(name_bytes@.len() as u16) + name_bytes@ + u32_le_bytes(
                n as u32,
            ) + keys_bytes(self.values@) =~= prefix + track_bytes(
                self.spec_name(),
                self.spec_keys(),
            ));
        }
        true
    }
}

/// A run of encoded keyframes takes eight bytes per key.
proof fn lemma_keys_bytes_len(s: Seq<Key>)
    ensures
        keys_bytes(s).len() == 8 * s.len(),
    decreases s.len(),
{
    if s.len() > 0 {
        lemma_keys_bytes_len(s.skip(1));
    }
}

/// Equal encodings come from equal key runs of the same length.
proof fn lemma_keys_bytes_injective(k1: Seq<Key>, k2: Seq<Key>)
    requires
        k1.len() == k2.len(),
        keys_bytes(k1) == keys_bytes(k2),
    ensures
        k1 =~= k2,
    decreases k1.len(),
{
    if k1.len() > 0 {
        let b1 = keys_bytes(k1);
        lemma_keys_bytes_len(k1.skip(1));
        lemma_keys_bytes_len(k2.skip(1));
        assert(key_bytes(k1[0]).len() == 8);
        assert(key_bytes(k2[0]).len() == 8);
        assert(key_bytes(k1[0]) =~= b1.subrange(0, 8));
        assert(key_bytes(k2[0]) =~= b1.subrange(0, 8));
        lemma_key_bytes_inverse(key_bytes(k1[0]));
        lemma_key_round_trip(k1[0]);
        lemma_key_round_trip(k2[0]);
        assert(k1[0] == key_from_bytes(b1.subrange(0, 8)));
        assert(k2[0] == key_from_bytes(b1.subrange(0, 8)));
        assert(keys_bytes(k1.skip(1)) =~= b1.subrange(8, b1.len() as int));
        assert(keys_bytes(k2.skip(1)) =~= b1.subrange(8, b1.len() as int));
        lemma_keys_bytes_injective(k1.skip(1), k2.skip(1));
        assert forall|j: int| 0 <= j < k1.len() implies k1[j] == k2[j] by {
            if j > 0 {
                assert(k1[j] == k1.skip(1)[j - 1]);
                assert(k2[j] == k2.skip(1)[j - 1]);
            }
        }
    }
}

/// The binary framing is injective: equal track encodings can only come
/// from the same name and the same keys. Together with the reader's
/// contract this pins reading back a written track down to the identity.
pub proof fn lemma_track_bytes_injective(
    n1: Seq<char>,
    k1: Seq<Key>,
    n2: Seq<char>,
    k2: Seq<Key>,
)
    requires
        track_encodable(n1, k1),
        track_encodable(n2, k2),
        track_bytes(n1, k1) == track_bytes(n2, k2),
    ensures
        n1 == n2,
        k1 =~= k2,
{
    let b = track_bytes(n1, k1);
    let e1 = encode_utf8(n1);
    let e2 = encode_utf8(n2);
    lemma_u16_le_round_trip(e1.len() as u16);
    lemma_u16_le_round_trip(e2.len() as u16);
    assert(b[0] == u16_le_bytes(e1.len() as u16)[0]);
    assert(b[0] == u16_le_bytes(e2.len() as u16)[0]);
    assert(b[1] == u16_le_bytes(e1.len() as u16)[1]);
    assert(b[1] == u16_le_bytes(e2.len() as u16)[1]);
    assert(e1.len() == e2.len());
    let nl = e1.len() as int;
    assert(e1 =~= b.subrange(2, 2 + nl));
    assert(e2 =~= b.subrange(2, 2 + nl));
    vstd::utf8::encode_utf8_decode_utf8(n1);
    vstd::utf8::encode_utf8_decode_utf8(n2);
    assert(n1 == n2);
    lemma_u32_le_round_trip(k1.len() as u32);
    lemma_u32_le_round_trip(k2.len() as u32);
    assert forall|j: int| 0 <= j < 4 implies #[trigger] u32_le_bytes(k1.len() as u32)[j]
        == u32_le_bytes(k2.len() as u32)[j] by {
        assert(b[2 + nl + j] == u32_le_bytes(k1.len() as u32)[j]);
        assert(b[2 + nl + j] == u32_le_bytes(k2.len() as u32)[j]);
    }
    assert(k1.len() == k2.len());
    lemma_keys_bytes_len(k1);
    lemma_keys_bytes_len(k2);
    assert(keys_bytes(k1) =~= b.subrange(6 + nl, b.len() as int));
    assert(keys_bytes(k2) =~= b.subrange(6 + nl, b.len() as int));
    lemma_keys_bytes_injective(k1, k2);
}

/// Why a binary track record could not be read back.
#[derive(PartialEq, Eq, Structural, Clone, Copy, Debug)]
pub enum TrackReadError {
    TruncatedInput,
    InvalidName,
}

/// The outcome the binary reader owes for `data` at `off`: nothing when a
/// complete record sits there, else exactly which error.
pub open spec fn track_read_check(data: Seq<u8>, off: int) -> Option<TrackReadError> {
    if off + 2 > data.len() {
        Some(TrackReadError::TruncatedInput)
    } else {
        let nl = u16_from_le(data[off], data[off + 1]);
        if off + 2 + nl > data.len() {
            Some(TrackReadError::TruncatedInput)
        } else if !valid_utf8(data.subrange(off + 2, off + 2 + nl)) {
            Some(TrackReadError::InvalidName)
        } else if off + 6 + nl > data.len() {
            Some(TrackReadError::TruncatedInput)
        } else {
            let cnt = u32_from_le(
                data[off + 2 + nl],
                data[off + 3 + nl],
                data[off + 4 + nl],
                data[off + 5 + nl],
            );
            if off + 6 + nl + cnt * 8 > data.len() {
                Some(TrackReadError::TruncatedInput)
            } else {
                None
            }
        }
    }
}

impl Track {
    /// Read a track back from its binary form at `off`. On success the
    /// bytes consumed are exactly the encoding of the returned track, and
    /// the position one past them is returned with it; whether the keys
    /// read back are sorted is the caller's to check, with `check_sorted`.
    /// On failure the record is truncated or its name is not UTF-8.
    #[verifier::rlimit(80)]
    pub fn read(data: &Vec<u8>, off: usize) -> (r: Result<(Track, usize), TrackReadError>)
        ensures
            match r {
                Ok(p) => {
                    &&& track_read_check(data@, off as int) is None
                    &&& off <= p.1 <= data@.len()
                    &&& data@.subrange(off as int, p.1 as int) == track_bytes(
                        p.0.spec_name(),
                        p.0.spec_keys(),
                    )
                    &&& track_encodable(p.0.spec_name(), p.0.spec_keys())
                },
                Err(e) => track_read_check(data@, off as int) == Some(e),
            },
    {
        let len = data.len();
        if off > len || len - off < 2 {
            return Err(TrackReadError::TruncatedInput);
        }
        let nl = read_u16(data, off) as usize;
        let name_start = off + 2;
        if len - name_start < nl {
            return Err(TrackReadError::TruncatedInput);
        }
        let name_end = name_start + nl;
        let ghost name_sub = data@.subrange(name_start as int, name_end as int);
        let mut name_buf: Vec<u8> = Vec::new();
        let mut i: usize = name_start;
        while i < name_end
            invariant
                name_start <= i <= name_end <= data@.len(),
                data@.len() == len,
                name_buf@ == data@.subrange(name_start as int, i as int),
            decreases name_end - i,
        {
            name_buf.push(data[i]);
            proof {
                assert(data@.subrange(name_start as int, i as int) + seq![data@[i as int]]
                    =~= data@.subrange(name_start as int, i as int + 1));
            }
            i = i + 1;
        }
        let name = match String::from_utf8(name_buf) {
            Ok(s) => s,
            Err(_) => {
                return Err(TrackReadError::InvalidName);
            },
        };
        if len - name_end < 4 {
            return Err(TrackReadError::TruncatedInput);
        }
        let cnt = read_u32(data, name_end);
        let keys_start = name_end + 4;
        if (cnt as u64) * 8 > (len - keys_start) as u64 {
            proof {
                assert(off as int + 6 + nl + (cnt as int) * 8 > data@.len());
            }
            return Err(TrackReadError::TruncatedInput);
        }
        let mut values: Vec<Key> = Vec::new();
        let mut j: u32 = 0;
        proof {
            assert(data@.subrange(keys_start as int, keys_start as int) =~= keys_bytes(values@));
        }
        while j < cnt
            invariant
                0 <= j <= cnt,
                data@.len() == len,
                keys_start + (cnt as int) * 8 <= len,
                values@.len() == j,
                keys_bytes(values@) == data@.subrange(
                    keys_start as int,
                    keys_start as int + (j as int) * 8,
                ),
            decreases cnt - j,
        {
            let k = Key::read(data, keys_start + (j as usize) * 8);
            let ghost vold = values@;
            values.push(k);
            proof {
                let ks = keys_start as int;
                let ji = j as int;
                let sub8 = data@.subrange(ks + ji * 8, ks + ji * 8 + 8);
                lemma_key_bytes_inverse(sub8);
                assert(key_bytes(k) == sub8);
                let v2 = values@;
                lemma_keys_bytes_snoc(v2, ji);
                assert(v2.take(ji + 1) =~= v2);
                assert(v2.take(ji) =~= vold);
                assert(v2[ji] == k);
                assert(keys_bytes(v2) == keys_bytes(vold) + key_bytes(k));
                assert(data@.subrange(ks, ks + ji * 8) + sub8 =~= data@.subrange(
                    ks,
                    ks + (ji + 1) * 8,
                ));
            }
            j = j + 1;
        }
        let end = keys_start + (cnt as usize) * 8;
        let track = Track { name, values };
        proof {
            let o = off as int;
            let ns = name_start as int;
            let ne = name_end as int;
            let ks = keys_start as int;
            let e = end as int;
            vstd::utf8::decode_utf8_encode_utf8(name_sub);
            assert(encode_utf8(track.spec_name()) == name_sub);
            assert(encode_utf8(track.spec_name()).len() == nl);
            lemma_u16_le_inverse(data@[o], data@[o + 1]);
            assert(data@.subrange(o, o + 2) =~= seq![data@[o], data@[o + 1]]);
            assert(data@.subrange(o, o + 2) == u16_le_bytes(nl as u16));
            lemma_u32_le_inverse(data@[ne], data@[ne + 1], data@[ne + 2], data@[ne + 3]);
            assert(data@.subrange(ne, ne + 4) =~= seq![
                data@[ne],
                data@[ne + 1],
                data@[ne + 2],
                data@[ne + 3],
            ]);
            assert(data@.subrange(ne, ne + 4) == u32_le_bytes(cnt));
            assert(track.spec_keys().len() == cnt);
            assert(data@.subrange(o, e) =~= data@.subrange(o, o + 2) + data@.subrange(ns, ne)
                + data@.subrange(ne, ne + 4) + data@.subrange(ks, e));
            assert(data@.subrange(o, e) == track_bytes(track.spec_name(), track.spec_keys()));
        }
        Ok((track, end))
    }

    /// Whether the rows strictly increase through the keys — exactly this
    /// track's well-formedness, which a track read back from bytes must be
    /// checked for before authoring on it.
    pub fn check_sorted(&self) -> (r: bool)
        ensures
            r == self.wf(),
    {
        let n = self.values.len();
        if n == 0 {
            return true;
        }
        let mut i: usize = 0;
        while i + 1 < n
            invariant
                0 <= i < n,
                n == self.values@.len(),
                forall|a: int, b: int|
                    0 <= a < b <= i ==> self.values@[a].row < self.values@[b].row,
            decreases n - i,
        {
            if self.values[i].row >= self.values[i + 1].row {
                return false;
            }
            i = i + 1;
        }
        true
    }
}

/// An integer clamped into 32-bit range.
pub open spec fn clamp_u32(v: int) -> int {
    if v > u32::MAX {
        u32::MAX as int
    } else {
        v
    }
}

/// An integer clamped into 64-bit range.
pub open spec fn clamp_u64(v: int) -> int {
    if v > u64::MAX {
        u64::MAX as int
    } else {
        v
    }
}

/// The tracker row at a given elapsed time: rows are sixteenth notes, four
/// to the beat at the configured tempo, and the fractional row is rounded
/// to the nearest whole row, which matches perceived synchronization better
/// than truncation.
pub open spec fn row_of_nanos(nanos: int, bpm: int) -> int {
    (2 * nanos * bpm + 15_000_000_000) / 30_000_000_000
}

/// The elapsed time at which a row sits: the inverse of `row_of_nanos`,
/// rounded to the nearest nanosecond; used for scrubbing.
pub open spec fn nanos_of_row(row: int, bpm: int) -> int {
    (2 * row * 15_000_000_000 + bpm) / (2 * bpm)
}

/// The row mapping is non-negative and monotonically non-decreasing in the
/// elapsed time, so the current row never runs backwards while unpaused.
pub proof fn lemma_row_monotonic(n1: int, n2: int, bpm: int)
    requires
        0 <= n1 <= n2,
        0 <= bpm,
    ensures
        0 <= row_of_nanos(n1, bpm) <= row_of_nanos(n2, bpm),
{
    assert(2 * n1 * bpm <= 2 * n2 * bpm) by (nonlinear_arith)
        requires
            0 <= n1 <= n2,
            0 <= bpm,
    ;
    assert(0 <= 2 * n1 * bpm) by (nonlinear_arith)
        requires
            0 <= n1,
            0 <= bpm,
    ;
    lemma_div_pos_is_pos(2 * n1 * bpm + 15_000_000_000, 30_000_000_000);
    lemma_div_is_ordered(
        2 * n1 * bpm + 15_000_000_000,
        2 * n2 * bpm + 15_000_000_000,
        30_000_000_000,
    );
}

/// The current row for a given elapsed time, clamped into 32-bit range.
fn compute_row(nanos: u64, bpm: u32) -> (r: u32)
    ensures
        r as int == clamp_u32(row_of_nanos(nanos as int, bpm as int)),
{
    proof {
        assert(2 * (nanos as int) * (bpm as int) <= 2 * (u64::MAX as int) * (u32::MAX as int))
            by (nonlinear_arith)
            requires
                nanos <= u64::MAX,
                bpm <= u32::MAX,
        ;
        assert(0 <= 2 * (nanos as int) * (bpm as int)) by (nonlinear_arith);
    }
    let num: u128 = 2 * (nanos as u128) * (bpm as u128) + 15_000_000_000;
    let q: u128 = num / 30_000_000_000;
    if q > u32::MAX as u128 {
        u32::MAX
    } else {
        q as u32
    }
}

/// The elapsed time at which a row sits, clamped into 64-bit range.
fn compute_row_nanos(row: u32, bpm: u32) -> (r: u64)
    requires
        bpm >= 1,
    ensures
        r as int == clamp_u64(nanos_of_row(row as int, bpm as int)),
{
    proof {
        assert(2 * (row as int) * 15_000_000_000 <= 2 * (u32::MAX as int) * 15_000_000_000)
            by (nonlinear_arith)
            requires
                row <= u32::MAX,
        ;
        assert(0 <= 2 * (row as int) * 15_000_000_000) by (nonlinear_arith);
    }
    let num: u128 = 2 * (row as u128) * 15_000_000_000 + (bpm as u128);
    let q: u128 = num / (2 * (bpm as u128));
    if q > u64::MAX as u128 {
        u64::MAX
    } else {
        q as u64
    }
}

/// Fatal tracker errors: misconfiguration at construction, or a reference
/// to a track that was never configured.
#[derive(PartialEq, Eq, Structural, Clone, Copy, Debug)]
pub enum TrackerError {
    ZeroTempo,
    DuplicateTrackName,
    UnknownTrack,
}

/// The first track with the given name, or a negative answer.
pub open spec fn track_index_of(tracks: Seq<Track>, name: Seq<char>) -> int
    decreases tracks.len(),
{
    if tracks.len() == 0 {
        -1
    } else if tracks[0].spec_name() == name {
        0
    } else {
        let rest = track_index_of(tracks.skip(1), name);
        if rest < 0 {
            -1
        } else {
            rest + 1
        }
    }
}

/// Whether the whole store fits the binary framing.
pub open spec fn tracks_serializable(ts: Seq<Track>) -> bool {
    ts.len() <= u32::MAX && forall|i: int|
        0 <= i < ts.len() ==> track_encodable(#[trigger] ts[i].spec_name(), ts[i].spec_keys())
}

/// Serialized form of a run of tracks, in order.
pub open spec fn tracks_bytes(ts: Seq<Track>) -> Seq<u8>
    decreases ts.len(),
{
    if ts.len() == 0 {
        Seq::empty()
    } else {
        track_bytes(ts[0].spec_name(), ts[0].spec_keys()) + tracks_bytes(ts.skip(1))
    }
}

/// Extending a run of encoded tracks by one more track.
proof fn lemma_tracks_bytes_snoc(ts: Seq<Track>, i: int)
    requires
        0 <= i < ts.len(),
    ensures
        tracks_bytes(ts.take(i + 1)) == tracks_bytes(ts.take(i)) + track_bytes(
            ts[i].spec_name(),
            ts[i].spec_keys(),
        ),
    decreases i,
{
    if i == 0 {
        assert(ts.take(1) =~= seq![ts[0]]);
        assert(seq![ts[0]].skip(1) =~= Seq::<Track>::empty());
        assert(ts.take(0) =~= Seq::<Track>::empty());
        assert(tracks_bytes(ts.take(0)) + track_bytes(ts[0].spec_name(), ts[0].spec_keys())
            =~= track_bytes(ts[0].spec_name(), ts[0].spec_keys()) + tracks_bytes(
            seq![ts[0]].skip(1),
        ));
    } else {
        lemma_tracks_bytes_snoc(ts.skip(1), i - 1);
        assert(ts.skip(1).take(i) =~= ts.take(i + 1).skip(1));
        assert(ts.skip(1).take(i - 1) =~= ts.take(i).skip(1));
        assert(ts.skip(1)[i - 1] == ts[i]);
        assert(ts.take(i + 1)[0] == ts[0]);
        assert(ts.take(i)[0] == ts[0]);
        let head = track_bytes(ts[0].spec_name(), ts[0].spec_keys());
        let tail = track_bytes(ts[i].spec_name(), ts[i].spec_keys());
        assert(head + (tracks_bytes(ts.take(i).skip(1)) + tail) =~= (head + tracks_bytes(
            ts.take(i).skip(1),
        )) + tail);
    }
}

/// The keyframe store: a fixed, named set of tracks established at
/// construction, a tempo in beats per minute, an optional persistence
/// location, and the seekable time source that drives playback.
pub struct Tracker {
    bpm: u32,
    tracks: Vec<Track>,
    path: Option<String>,
    pub time: SeekableTimeSource,
}

impl Tracker {
    /// The configured tempo.
    pub closed spec fn spec_bpm(&self) -> u32 {
        self.bpm
    }

    /// The tracks, in configuration order.
    pub closed spec fn spec_tracks(&self) -> Seq<Track> {
        self.tracks@
    }

    /// The configured persistence location.
    pub closed spec fn spec_path(&self) -> Option<String> {
        self.path
    }

    /// The time source, for contracts.
    pub closed spec fn spec_time(&self) -> SeekableTimeSource {
        self.time
    }

    /// Well-formed: a positive tempo, every track sorted, and no two
    /// tracks sharing a name.
    pub open spec fn wf(&self) -> bool {
        &&& self.spec_bpm() >= 1
        &&& forall|i: int| 0 <= i < self.spec_tracks().len() ==> (#[trigger] self.spec_tracks()[i]).wf()
        &&& forall|i: int, j: int|
            0 <= i < j < self.spec_tracks().len() ==> self.spec_tracks()[i].spec_name() != self.spec_tracks()[j].spec_name()
    }

    /// Build a store with one empty track per name, in the given order. A
    /// zero tempo and a duplicated track name are construction errors; the
    /// time source starts at zero, running.
    #[verifier::loop_isolation(false)]
    pub fn new(bpm: u32, path: Option<String>, track_names: &Vec<String>) -> (r: Result<
        Tracker,
        TrackerError,
    >)
        ensures
            match r {
                Ok(t) => {
                    &&& bpm >= 1
                    &&& forall|a: int, b: int|
                        0 <= a < b < track_names@.len() ==> track_names@[a]@ != track_names@[b]@
                    &&& t.wf()
                    &&& t.spec_bpm() == bpm
                    &&& t.spec_path() == path
                    &&& t.spec_tracks().len() == track_names@.len()
                    &&& forall|i: int|
                        0 <= i < track_names@.len() ==> (#[trigger] t.spec_tracks()[i]).spec_name()
                            == track_names@[i]@ && t.spec_tracks()[i].spec_keys().len() == 0
                    &&& !t.spec_time().state().paused
                    &&& t.spec_time().state().offset_nanos == 0
                },
                Err(e) => {
                    &&& (e == TrackerError::ZeroTempo <==> bpm == 0)
                    &&& (e == TrackerError::DuplicateTrackName ==> exists|a: int, b: int|
                        0 <= a < b < track_names@.len() && track_names@[a]@ == track_names@[b]@)
                    &&& (e == TrackerError::ZeroTempo || e == TrackerError::DuplicateTrackName)
                },
            },
            r is Err <==> (bpm == 0 || exists|a: int, b: int|
                0 <= a < b < track_names@.len() && track_names@[a]@ == track_names@[b]@),
    {
        if bpm == 0 {
            return Err(TrackerError::ZeroTempo);
        }
        let n = track_names.len();
        let mut i: usize = 0;
        while i < n
            invariant
                0 <= i <= n,
                n == track_names@.len(),
                forall|a: int, b: int| 0 <= a < b < i ==> track_names@[a]@ != track_names@[b]@,
            decreases n - i,
        {
            let mut k: usize = 0;
            while k < i
                invariant
                    0 <= k <= i < n,
                    n == track_names@.len(),
                    forall|a: int| 0 <= a < k ==> track_names@[a]@ != track_names@[i as int]@,
                decreases i - k,
            {
                if track_names[k] == track_names[i] {
                    proof {
                        let ki = k as int;
                        let ii = i as int;
                        assert(0 <= ki < ii < track_names@.len() && track_names@[ki]@
                            == track_names@[ii]@);
                    }
                    return Err(TrackerError::DuplicateTrackName);
                }
                k = k + 1;
            }
            i = i + 1;
        }
        let mut tracks: Vec<Track> = Vec::new();
        let mut i: usize = 0;
        while i < n
            invariant
                0 <= i <= n,
                n == track_names@.len(),
                tracks@.len() == i,
                forall|j: int|
                    0 <= j < i ==> (#[trigger] tracks@[j]).spec_name() == track_names@[j]@
                        && tracks@[j].spec_keys().len() == 0 && tracks@[j].wf(),
            decreases n - i,
        {
            tracks.push(Track::new(track_names[i].clone()));
            i = i + 1;
        }
        Ok(Tracker { bpm, tracks, path, time: SeekableTimeSource::now() })
    }

    /// The tempo in beats per minute.
    pub fn bpm(&self) -> (r: u32)
        ensures
            r == self.spec_bpm(),
    {
        self.bpm
    }

    /// The configured persistence location, if any.
    pub fn path(&self) -> (r: &Option<String>)
        ensures
            *r == self.spec_path(),
    {
        &self.path
    }

    /// The tracks, for reading.
    pub fn tracks(&self) -> (r: &Vec<Track>)
        ensures
            r@ == self.spec_tracks(),
    {
        &self.tracks
    }

    /// The row the playback position sits on now. While paused this is
    /// exactly the row of the held offset; while running it is never behind
    /// that row, so it only moves forward as time passes. Rows past the
    /// 32-bit range clamp.
    pub fn current_row(&self) -> (r: u32)
        requires
            self.wf(),
        ensures
            self.spec_time().state().paused ==> r as int == clamp_u32(
                row_of_nanos(self.spec_time().state().offset_nanos as int, self.spec_bpm() as int),
            ),
            r as int >= clamp_u32(
                row_of_nanos(self.spec_time().state().offset_nanos as int, self.spec_bpm() as int),
            ),
    {
        let e = self.time.elapsed();
        proof {
            lemma_row_monotonic(
                self.spec_time().state().offset_nanos as int,
                e as int,
                self.spec_bpm() as int,
            );
        }
        compute_row(e, self.bpm)
    }

    /// The elapsed time, in nanoseconds, at which the given row sits; used
    /// for scrubbing.
    pub fn get_time_from_row(&self, row: u32) -> (r: u64)
        requires
            self.wf(),
        ensures
            r as int == clamp_u64(nanos_of_row(row as int, self.spec_bpm() as int)),
    {
        compute_row_nanos(row, self.bpm)
    }

    /// Insert or overwrite a keyframe in the named track. A name that
    /// matches no configured track is a fatal lookup error and the store is
    /// left untouched; after a successful mutation the host rewrites the
    /// whole persistence file from the store's contents.
    #[verifier::loop_isolation(false)]
    pub fn set_value(&mut self, track_name: &String, row: u32, value: u32) -> (r: Result<
        (),
        TrackerError,
    >)
        requires
            old(self).wf(),
        ensures
            final(self).wf(),
            final(self).spec_bpm() == old(self).spec_bpm(),
            final(self).spec_path() == old(self).spec_path(),
            final(self).spec_time() == old(self).spec_time(),
            r is Ok <==> track_index_of(old(self).spec_tracks(), track_name@) >= 0,
            r is Err ==> r == Err::<(), TrackerError>(TrackerError::UnknownTrack)
                && *final(self) == *old(self),
            r is Ok ==> {
                let idx = track_index_of(old(self).spec_tracks(), track_name@);
                &&& final(self).spec_tracks().len() == old(self).spec_tracks().len()
                &&& final(self).spec_tracks()[idx].spec_name()
                    == old(self).spec_tracks()[idx].spec_name()
                &&& final(self).spec_tracks()[idx].spec_keys() == key_insert(
                    old(self).spec_tracks()[idx].spec_keys(),
                    row,
                    value,
                )
                &&& forall|j: int|
                    0 <= j < old(self).spec_tracks().len() && j != idx
                        ==> final(self).spec_tracks()[j] == old(self).spec_tracks()[j]
            },
    {
        let ghost ts = self.tracks@;
        let n = self.tracks.len();
        let mut i: usize = 0;
        proof {
            assert(ts.skip(0) =~= ts);
        }
        while i < n
            invariant
                0 <= i <= n,
                n == ts.len(),
                *self == *old(self),
                ts == self.tracks@,
                forall|k: int| 0 <= k < i ==> (#[trigger] ts[k]).spec_name() != track_name@,
                track_index_of(ts, track_name@) == if track_index_of(
                    ts.skip(i as int),
                    track_name@,
                ) < 0 {
                    -1
                } else {
                    i + track_index_of(ts.skip(i as int), track_name@)
                },
            decreases n - i,
        {
            proof {
                assert(ts.skip(i as int)[0] == ts[i as int]);
                assert(ts.skip(i as int).skip(1) =~= ts.skip(i as int + 1));
            }
            if self.tracks[i].name == *track_name {
                let ghost ii = i as int;
                proof {
                    assert(ts[ii].spec_name() == track_name@);
                    assert(track_index_of(ts.skip(ii), track_name@) == 0);
                    assert(track_index_of(ts, track_name@) == ii);
                    assert((old(self).spec_tracks()[ii]).wf());
                }
                let mut tr = self.tracks.remove(i);
                tr.set_value(row, value);
                self.tracks.insert(i, tr);
                proof {
                    let fs = self.tracks@;
                    assert(fs =~= ts.update(ii, fs[ii]));
                    lemma_key_insert_sorted(ts[ii].spec_keys(), row, value);
                    assert(fs[ii].wf());
                    assert forall|j: int| 0 <= j < fs.len() implies (#[trigger] fs[j]).wf() by {
                        if j != ii {
                            assert(fs[j] == ts[j]);
                            assert((old(self).spec_tracks()[j]).wf());
                        }
                    }
                    assert(fs[ii].spec_name() == ts[ii].spec_name());
                    assert forall|a: int, b: int| 0 <= a < b < fs.len() implies fs[a].spec_name()
                        != fs[b].spec_name() by {
                        assert(fs[a].spec_name() == ts[a].spec_name());
                        assert(fs[b].spec_name() == ts[b].spec_name());
                        assert(old(self).spec_tracks()[a].spec_name() != old(
                            self,
                        ).spec_tracks()[b].spec_name());
                    }
                }
                return Ok(());
            }
            i = i + 1;
        }
        proof {
            assert(ts.skip(n as int).len() == 0);
        }
        Err(TrackerError::UnknownTrack)
    }

    /// The complete store in its compact binary form: the 32-bit track
    /// count, then each track in order. Nothing is produced if any track
    /// outgrows the framing.
    pub fn serialize(&self) -> (r: Option<Vec<u8>>)
        ensures
            r is Some <==> tracks_serializable(self.spec_tracks()),
            r matches Some(b) ==> b@ == u32_le_bytes(self.spec_tracks().len() as u32)
                + tracks_bytes(self.spec_tracks()),
    {
        let n = self.tracks.len();
        if n > u32::MAX as usize {
            return None;
        }
        let mut out: Vec<u8> = Vec::new();
        write_u32(&mut out, n as u32);
        let ghost prefix = out@;
        let mut i: usize = 0;
        proof {
            assert(self.tracks@.take(0) =~= Seq::<Track>::empty());
            assert(prefix + tracks_bytes(self.tracks@.take(0)) =~= prefix);
        }
        while i < n
            invariant
                0 <= i <= n,
                n == self.tracks@.len(),
                forall|k: int|
                    0 <= k < i ==> track_encodable(
                        (#[trigger] self.tracks@[k]).spec_name(),
                        self.tracks@[k].spec_keys(),
                    ),
                out@ == prefix + tracks_bytes(self.tracks@.take(i as int)),
            decreases n - i,
        {
            let ok = self.tracks[i].write(&mut out);
            if !ok {
                return None;
            }
            proof {
                lemma_tracks_bytes_snoc(self.tracks@, i as int);
                assert(prefix + tracks_bytes(self.tracks@.take(i as int)) + track_bytes(
                    self.tracks@[i as int].spec_name(),
                    self.tracks@[i as int].spec_keys(),
                ) =~= prefix + tracks_bytes(self.tracks@.take(i as int + 1)));
            }
            i = i + 1;
        }
        proof {
            assert(self.tracks@.take(n as int) =~= self.tracks@);
        }
        Some(out)
    }
}

impl Tracker {
    /// Apply one editor input, given the cursor row sampled for this frame.
    /// Row steps scrub: the time source is paused and set exactly onto the
    /// stepped row, which never leaves the row range. Toggling pause flips
    /// the time source and tells the host to pause the music with it, or to
    /// resume it at the cursor row's position. Returns the new cursor row
    /// and the music command.
    pub fn apply_edit(&mut self, row: u32, event: EditorEvent) -> (r: (u32, MusicCommand))
        requires
            old(self).wf(),
        ensures
            final(self).wf(),
            final(self).spec_tracks() == old(self).spec_tracks(),
            final(self).spec_bpm() == old(self).spec_bpm(),
            final(self).spec_path() == old(self).spec_path(),
            match event {
                EditorEvent::TogglePause => {
                    &&& r.0 == row
                    &&& final(self).spec_time().state().paused == !old(self).spec_time().state().paused
                    &&& (old(self).spec_time().state().paused ==> final(self).spec_time().state().offset_nanos == old(self).spec_time().state().offset_nanos
                        && r.1 == (MusicCommand::Resume {
                        position_nanos: clamp_u64(
                            nanos_of_row(row as int, old(self).spec_bpm() as int),
                        ) as u64,
                    }))
                    &&& (!old(self).spec_time().state().paused ==> r.1 == MusicCommand::Pause)
                },
                EditorEvent::RowUp { fast } => {
                    &&& r.0 == if row >= edit_step(fast) {
                        row - edit_step(fast)
                    } else {
                        0
                    }
                    &&& r.1 == MusicCommand::Stay
                    &&& final(self).spec_time().state().paused
                    &&& final(self).spec_time().state().offset_nanos == clamp_u64(
                        nanos_of_row(r.0 as int, old(self).spec_bpm() as int),
                    )
                },
                EditorEvent::RowDown { fast } => {
                    &&& r.0 == if row + edit_step(fast) <= u32::MAX {
                        row + edit_step(fast)
                    } else {
                        u32::MAX as int
                    }
                    &&& r.1 == MusicCommand::Stay
                    &&& final(self).spec_time().state().paused
                    &&& final(self).spec_time().state().offset_nanos == clamp_u64(
                        nanos_of_row(r.0 as int, old(self).spec_bpm() as int),
                    )
                },
            },
    {
        match event {
            EditorEvent::TogglePause => {
                let was_paused = self.time.is_paused();
                self.time.set_paused(!was_paused);
                proof {
                    assert(self.spec_tracks() == old(self).spec_tracks());
                    assert(self.spec_bpm() == old(self).spec_bpm());
                    assert(self.wf());
                }
                if was_paused {
                    let pos = self.get_time_from_row(row);
                    (row, MusicCommand::Resume { position_nanos: pos })
                } else {
                    (row, MusicCommand::Pause)
                }
            },
            EditorEvent::RowUp { fast } => {
                let step: u32 = if fast {
                    4
                } else {
                    1
                };
                let new_row = if row >= step {
                    row - step
                } else {
                    0
                };
                self.scrub_to(new_row);
                (new_row, MusicCommand::Stay)
            },
            EditorEvent::RowDown { fast } => {
                let step: u32 = if fast {
                    4
                } else {
                    1
                };
                let new_row = if row <= u32::MAX - step {
                    row + step
                } else {
                    u32::MAX
                };
                self.scrub_to(new_row);
                (new_row, MusicCommand::Stay)
            },
        }
    }

    /// Scrub to a row: pause and seek in one step, so the held position is
    /// exactly the row's time and does not absorb any wall-clock slack.
    pub fn scrub_to(&mut self, row: u32)
        requires
            old(self).wf(),
        ensures
            final(self).wf(),
            final(self).spec_tracks() == old(self).spec_tracks(),
            final(self).spec_bpm() == old(self).spec_bpm(),
            final(self).spec_path() == old(self).spec_path(),
            final(self).spec_time().state().paused,
            final(self).spec_time().state().offset_nanos == clamp_u64(
                nanos_of_row(row as int, old(self).spec_bpm() as int),
            ),
    {
        let pos = self.get_time_from_row(row);
        self.time.seek_paused(pos);
        proof {
            assert(self.spec_tracks() == old(self).spec_tracks());
            assert(self.wf());
        }
    }
}

} // verus!
