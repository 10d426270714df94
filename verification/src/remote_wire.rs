//! Framing for the remote-worker protocol (`pe --remote-worker`, distributed
//! `pmap_on`): each message is its payload length as a little-endian `u64`
//! followed by the payload bytes.
use vstd::prelude::*;
use crate::value::{PerlValue, PerlModel, model_of, model_seq, model_pairs, lemma_model_seq, lemma_model_pairs};
use crate::nanbox::{is_raw_float_bits, spec_is_raw_float_bits};
use crate::text::{str_eq, push_str};
use vstd::utf8::encode_utf8;

verus! {

/// Largest payload a frame may announce.
pub const MAX_FRAME: u64 = 268435456;

/// Why a frame could not be read.
#[derive(Debug, Clone, Copy, PartialEq, Eq, Structural)]
pub enum FrameError {
    /// The input ended inside the length header or inside the payload.
    UnexpectedEof,
    /// The header announced more than [`MAX_FRAME`] bytes.
    TooLarge(u64),
}

/// The eight little-endian bytes of `n`.
pub open spec fn le_bytes(n: u64) -> Seq<u8> {
    seq![
        (n & 0xff) as u8,
        ((n >> 8u64) & 0xff) as u8,
        ((n >> 16u64) & 0xff) as u8,
        ((n >> 24u64) & 0xff) as u8,
        ((n >> 32u64) & 0xff) as u8,
        ((n >> 40u64) & 0xff) as u8,
        ((n >> 48u64) & 0xff) as u8,
        ((n >> 56u64) & 0xff) as u8,
    ]
}

/// The `u64` whose little-endian bytes are `b[0..8]`.
pub open spec fn le_value(b: Seq<u8>) -> u64 {
    le_value8(b[0], b[1], b[2], b[3], b[4], b[5], b[6], b[7])
}

/// The `u64` with little-endian bytes `b0..b7`.
pub open spec fn le_value8(b0: u8, b1: u8, b2: u8, b3: u8, b4: u8, b5: u8, b6: u8, b7: u8) -> u64 {
    (b0 as u64) | ((b1 as u64) << 8u64) | ((b2 as u64) << 16u64) | ((b3 as u64) << 24u64) | ((
    b4 as u64) << 32u64) | ((b5 as u64) << 40u64) | ((b6 as u64) << 48u64) | ((b7 as u64) << 56u64)
}

/// The frame that carries `payload`.
pub open spec fn spec_frame(payload: Seq<u8>) -> Seq<u8> {
    le_bytes(payload.len() as u64) + payload
}

/// Reading one frame from the front of `input`: the payload and the number of
/// bytes the frame occupies, or why there is no complete, acceptable frame.
pub open spec fn spec_read_frame(input: Seq<u8>) -> Result<(Seq<u8>, int), FrameError> {
    if input.len() < 8 {
        Err(FrameError::UnexpectedEof)
    } else {
        let n = le_value(input);
        if n > MAX_FRAME {
            Err(FrameError::TooLarge(n))
        } else if input.len() - 8 < n {
            Err(FrameError::UnexpectedEof)
        } else {
            Ok((input.subrange(8, 8 + n), 8 + n))
        }
    }
}

proof fn lemma_le_roundtrip(n: u64)
    ensures
        le_value(le_bytes(n)) == n,
{
    let b = le_bytes(n);
    assert(le_value8(
        (n & 0xff) as u8,
        ((n >> 8u64) & 0xff) as u8,
        ((n >> 16u64) & 0xff) as u8,
        ((n >> 24u64) & 0xff) as u8,
        ((n >> 32u64) & 0xff) as u8,
        ((n >> 40u64) & 0xff) as u8,
        ((n >> 48u64) & 0xff) as u8,
        ((n >> 56u64) & 0xff) as u8,
    ) == n) by (bit_vector);
}

/// The eight little-endian bytes of `n`.
pub fn u64_to_le_bytes(n: u64) -> (b: [u8; 8])
    ensures
        b@ == le_bytes(n),
{
    let b = [
        (n & 0xff) as u8,
        ((n >> 8u64) & 0xff) as u8,
        ((n >> 16u64) & 0xff) as u8,
        ((n >> 24u64) & 0xff) as u8,
        ((n >> 32u64) & 0xff) as u8,
        ((n >> 40u64) & 0xff) as u8,
        ((n >> 48u64) & 0xff) as u8,
        ((n >> 56u64) & 0xff) as u8,
    ];
    assert(b@ =~= le_bytes(n));
    b
}

/// The `u64` whose little-endian bytes are `b[0..8]`.
pub fn u64_from_le_bytes(b: &[u8]) -> (n: u64)
    requires
        b@.len() >= 8,
    ensures
        n == le_value(b@),
{
    (b[0] as u64) | ((b[1] as u64) << 8u64) | ((b[2] as u64) << 16u64) | ((b[3] as u64) << 24u64)
        | ((b[4] as u64) << 32u64) | ((b[5] as u64) << 40u64) | ((b[6] as u64) << 48u64) | ((
    b[7] as u64) << 56u64)
}

/// Appends one frame carrying `payload` to `out`: the payload length as eight
/// little-endian bytes, then the payload.
pub fn write_framed(out: &mut Vec<u8>, payload: &[u8])
    ensures
        final(out)@ == old(out)@ + spec_frame(payload@),
{
    let header = u64_to_le_bytes(payload.len() as u64);
    let mut i: usize = 0;
    while i < 8
        invariant
            i <= 8,
            header@ == le_bytes(payload@.len() as u64),
            out@ == old(out)@ + header@.subrange(0, i as int),
        decreases 8 - i,
    {
        out.push(header[i]);
        i = i + 1;
        assert(header@.subrange(0, i as int) =~= header@.subrange(0, i - 1).push(header@[i - 1]));
    }
    let ghost mid = out@;
    let mut j: usize = 0;
    while j < payload.len()
        invariant
            j <= payload@.len(),
            out@ == mid + payload@.subrange(0, j as int),
        decreases payload@.len() - j,
    {
        out.push(payload[j]);
        j = j + 1;
        assert(payload@.subrange(0, j as int) =~= payload@.subrange(0, j - 1).push(payload@[j - 1]));
    }
    assert(header@.subrange(0, 8) =~= header@);
    assert(payload@.subrange(0, payload@.len() as int) =~= payload@);
    assert(out@ =~= old(out)@ + spec_frame(payload@));
}

/// Reads one frame from the front of `input`: returns the payload and the number of
/// bytes consumed. Fails with `UnexpectedEof` when the header or the payload is cut
/// short, and with `TooLarge` when the header announces more than `MAX_FRAME` bytes.
pub fn read_framed(input: &[u8]) -> (r: Result<(Vec<u8>, usize), FrameError>)
    ensures
        match (r, spec_read_frame(input@)) {
            (Ok((p, used)), Ok((sp, sused))) => p@ == sp && used == sused,
            (Err(e), Err(se)) => e == se,
            _ => false,
        },
{
    if input.len() < 8 {
        return Err(FrameError::UnexpectedEof);
    }
    let n = u64_from_le_bytes(input);
    if n > MAX_FRAME {
        return Err(FrameError::TooLarge(n));
    }
    let n = n as usize;
    if input.len() - 8 < n {
        return Err(FrameError::UnexpectedEof);
    }
    let mut v: Vec<u8> = Vec::new();
    let mut j: usize = 0;
    while j < n
        invariant
            j <= n,
            8 + n <= input@.len(),
            input@.len() <= usize::MAX,
            v@ == input@.subrange(8, 8 + j),
        decreases n - j,
    {
        v.push(input[8 + j]);
        j = j + 1;
        assert(input@.subrange(8, 8 + j) =~= input@.subrange(8, 8 + j - 1).push(input@[8 + j - 1]));
    }
    Ok((v, 8 + n))
}

/// Reading back a written frame gives the payload, whatever follows it, and
/// consumes exactly the frame, provided the payload is within `MAX_FRAME`.
pub proof fn lemma_frame_roundtrip(payload: Seq<u8>, rest: Seq<u8>)
    requires
        payload.len() <= MAX_FRAME,
    ensures
        spec_read_frame(spec_frame(payload) + rest) == Ok::<(Seq<u8>, int), FrameError>(
            (payload, 8 + payload.len() as int),
        ),
{
    let input = spec_frame(payload) + rest;
    let n = payload.len() as u64;
    lemma_le_roundtrip(n);
    assert(input.subrange(0, 8) =~= le_bytes(n));
    assert(le_value(input) == le_value(le_bytes(n)));
    assert(input.subrange(8, 8 + n) =~= payload);
}

/// A frame that announces more than `MAX_FRAME` bytes is refused whatever follows.
pub proof fn lemma_oversized_header_refused(n: u64, rest: Seq<u8>)
    requires
        n > MAX_FRAME,
    ensures
        spec_read_frame(le_bytes(n) + rest) == Err::<(Seq<u8>, int), FrameError>(
            FrameError::TooLarge(n),
        ),
{
    lemma_le_roundtrip(n);
    let input = le_bytes(n) + rest;
    assert(le_value(input) == le_value(le_bytes(n)));
}


/// A JSON number as `serde_json` holds it.
#[derive(Debug, Clone, Copy, PartialEq, Eq, Structural)]
pub enum JsonNumber {
    /// A non-negative integer.
    PosInt(u64),
    /// A negative integer.
    NegInt(i64),
    /// A finite double, held as its IEEE-754 bit pattern.
    Float(u64),
}

/// A JSON value, as carried in remote jobs and responses.
pub enum JsonValue {
    Null,
    Bool(bool),
    Number(JsonNumber),
    String(String),
    Array(Vec<JsonValue>),
    /// Key/value pairs in the object's order.
    Object(Vec<(String, JsonValue)>),
}

/// The mathematical model of a [`JsonValue`].
pub enum JsonModel {
    Null,
    Bool(bool),
    Number(JsonNumber),
    Str(Seq<char>),
    Array(Seq<JsonModel>),
    Object(Seq<(Seq<char>, JsonModel)>),
}

/// The models of a sequence of JSON values.
pub open spec fn json_model_seq(s: Seq<JsonValue>) -> Seq<JsonModel>
    decreases s,
{
    if s.len() == 0 {
        seq![]
    } else {
        json_model_seq(s.drop_last()).push(json_model_of(s.last()))
    }
}

/// The models of a sequence of JSON object entries.
pub open spec fn json_model_pairs(s: Seq<(String, JsonValue)>) -> Seq<(Seq<char>, JsonModel)>
    decreases s,
{
    if s.len() == 0 {
        seq![]
    } else {
        json_model_pairs(s.drop_last()).push((s.last().0@, json_model_of(s.last().1)))
    }
}

/// The model of a JSON value.
pub open spec fn json_model_of(v: JsonValue) -> JsonModel
    decreases v,
{
    match v {
        JsonValue::Null => JsonModel::Null,
        JsonValue::Bool(b) => JsonModel::Bool(b),
        JsonValue::Number(n) => JsonModel::Number(n),
        JsonValue::String(s) => JsonModel::Str(s@),
        JsonValue::Array(a) => JsonModel::Array(json_model_seq(a@)),
        JsonValue::Object(o) => JsonModel::Object(json_model_pairs(o@)),
    }
}

impl View for JsonValue {
    type V = JsonModel;

    open spec fn view(&self) -> JsonModel {
        json_model_of(*self)
    }
}

/// The position of key `k` among the pairs `h`, or -1.
pub open spec fn key_position<V>(h: Seq<(Seq<char>, V)>, k: Seq<char>) -> int
    decreases h.len(),
{
    if h.len() == 0 {
        -1
    } else if key_position(h.drop_last(), k) >= 0 {
        key_position(h.drop_last(), k)
    } else if h.last().0 == k {
        h.len() - 1
    } else {
        -1
    }
}

/// Inserting into an insertion-ordered map: an existing key keeps its place and
/// takes the new value; a new key goes to the end.
pub open spec fn map_insert<V>(h: Seq<(Seq<char>, V)>, k: Seq<char>, v: V) -> Seq<(Seq<char>, V)> {
    let i = key_position(h, k);
    if i >= 0 {
        h.update(i, (k, v))
    } else {
        h.push((k, v))
    }
}

/// The Perl value a JSON value becomes: `null` is `undef`, booleans are 1 and 0,
/// integers keep their bits as an `i64`, doubles stay doubles, arrays and objects
/// convert element by element (an object's entries inserted in order).
pub open spec fn spec_json_to_perl(j: JsonModel) -> PerlModel
    decreases j,
{
    match j {
        JsonModel::Null => PerlModel::Undef,
        JsonModel::Bool(b) => PerlModel::Integer(if b { 1 } else { 0 }),
        JsonModel::Number(JsonNumber::PosInt(u)) => PerlModel::Integer(u as i64),
        JsonModel::Number(JsonNumber::NegInt(i)) => PerlModel::Integer(i),
        JsonModel::Number(JsonNumber::Float(f)) => PerlModel::Float(f),
        JsonModel::Str(s) => PerlModel::Str(s),
        JsonModel::Array(a) => PerlModel::Array(json_seq_to_perl(a)),
        JsonModel::Object(o) => PerlModel::Hash(json_pairs_to_perl(o)),
    }
}

/// Element-wise [`spec_json_to_perl`].
pub open spec fn json_seq_to_perl(s: Seq<JsonModel>) -> Seq<PerlModel>
    decreases s,
{
    if s.len() == 0 {
        seq![]
    } else {
        json_seq_to_perl(s.drop_last()).push(spec_json_to_perl(s.last()))
    }
}

/// Object entries inserted in order into a Perl hash.
pub open spec fn json_pairs_to_perl(s: Seq<(Seq<char>, JsonModel)>) -> Seq<(Seq<char>, PerlModel)>
    decreases s,
{
    if s.len() == 0 {
        seq![]
    } else {
        map_insert(json_pairs_to_perl(s.drop_last()), s.last().0, spec_json_to_perl(s.last().1))
    }
}

/// The JSON number for an `i64`.
pub open spec fn int_number(i: i64) -> JsonNumber {
    if i < 0 {
        JsonNumber::NegInt(i)
    } else {
        JsonNumber::PosInt(i as u64)
    }
}

/// The message for a value that has no JSON form.
pub open spec fn unsupported_message(kind_name: Seq<char>) -> Seq<char> {
    "value not supported for remote pmap (need null, bool/int/float/string/array/hash): "@
        + kind_name
}

/// The JSON form of a Perl value: `undef` is `null`, integers are integers, finite
/// doubles are doubles and other doubles `null`, strings stay strings, arrays and
/// hashes convert element by element; a code reference has no JSON form.
pub open spec fn spec_perl_to_json(p: PerlModel) -> Result<JsonModel, Seq<char>>
    decreases p,
{
    match p {
        PerlModel::Undef => Ok(JsonModel::Null),
        PerlModel::Integer(i) => Ok(JsonModel::Number(int_number(i))),
        PerlModel::Float(f) => if spec_is_raw_float_bits(f) {
            Ok(JsonModel::Number(JsonNumber::Float(f)))
        } else {
            Ok(JsonModel::Null)
        },
        PerlModel::Str(s) => Ok(JsonModel::Str(s)),
        PerlModel::Array(a) => match perl_seq_to_json(a) {
            Ok(js) => Ok(JsonModel::Array(js)),
            Err(e) => Err(e),
        },
        PerlModel::Hash(h) => match perl_pairs_to_json(h) {
            Ok(js) => Ok(JsonModel::Object(js)),
            Err(e) => Err(e),
        },
        PerlModel::Code(_) => Err(unsupported_message("CODE"@)),
    }
}

/// Element-wise [`spec_perl_to_json`]; the first failure wins.
pub open spec fn perl_seq_to_json(s: Seq<PerlModel>) -> Result<Seq<JsonModel>, Seq<char>>
    decreases s,
{
    if s.len() == 0 {
        Ok(seq![])
    } else {
        match perl_seq_to_json(s.drop_last()) {
            Err(e) => Err(e),
            Ok(prev) => match spec_perl_to_json(s.last()) {
                Err(e) => Err(e),
                Ok(j) => Ok(prev.push(j)),
            },
        }
    }
}

/// Hash entries converted and inserted in order into a JSON object; the first
/// failure wins.
pub open spec fn perl_pairs_to_json(s: Seq<(Seq<char>, PerlModel)>) -> Result<Seq<(Seq<char>, JsonModel)>, Seq<char>>
    decreases s,
{
    if s.len() == 0 {
        Ok(seq![])
    } else {
        match perl_pairs_to_json(s.drop_last()) {
            Err(e) => Err(e),
            Ok(prev) => match spec_perl_to_json(s.last().1) {
                Err(e) => Err(e),
                Ok(j) => Ok(map_insert(prev, s.last().0, j)),
            },
        }
    }
}


proof fn lemma_json_model_seq(s: Seq<JsonValue>)
    ensures
        json_model_seq(s).len() == s.len(),
        forall|j: int| 0 <= j < s.len() ==> #[trigger] json_model_seq(s)[j] == json_model_of(s[j]),
    decreases s.len(),
{
    if s.len() > 0 {
        lemma_json_model_seq(s.drop_last());
    }
}

pub proof fn lemma_json_model_pairs(s: Seq<(String, JsonValue)>)
    ensures
        json_model_pairs(s).len() == s.len(),
        forall|j: int|
            0 <= j < s.len() ==> #[trigger] json_model_pairs(s)[j] == (s[j].0@, json_model_of(s[j].1)),
    decreases s.len(),
{
    if s.len() > 0 {
        lemma_json_model_pairs(s.drop_last());
    }
}

proof fn lemma_json_seq_to_perl(s: Seq<JsonModel>)
    ensures
        json_seq_to_perl(s).len() == s.len(),
        forall|j: int| 0 <= j < s.len() ==> #[trigger] json_seq_to_perl(s)[j] == spec_json_to_perl(s[j]),
    decreases s.len(),
{
    if s.len() > 0 {
        lemma_json_seq_to_perl(s.drop_last());
    }
}

proof fn lemma_key_position<V>(h: Seq<(Seq<char>, V)>, k: Seq<char>)
    ensures
        -1 <= key_position(h, k) < h.len(),
        key_position(h, k) == -1 ==> forall|j: int| 0 <= j < h.len() ==> (#[trigger] h[j]).0 != k,
        key_position(h, k) >= 0 ==> h[key_position(h, k)].0 == k && forall|j: int|
            0 <= j < key_position(h, k) ==> (#[trigger] h[j]).0 != k,
    decreases h.len(),
{
    if h.len() > 0 {
        lemma_key_position(h.drop_last(), k);
        let p = key_position(h.drop_last(), k);
        if p >= 0 {
            assert(h[p] == h.drop_last()[p]);
            assert forall|j: int| 0 <= j < p implies (#[trigger] h[j]).0 != k by {
                assert(h[j] == h.drop_last()[j]);
            }
        } else {
            assert forall|j: int| 0 <= j < h.len() - 1 implies (#[trigger] h[j]).0 != k by {
                assert(h[j] == h.drop_last()[j]);
            }
        }
    }
}

/// The position of key `k` in `h`, if present.
fn find_key<V>(h: &Vec<(String, V)>, k: &str) -> (r: Option<usize>)
    ensures
        r matches Some(i) ==> i < h@.len() && h@[i as int].0@ == k@ && forall|j: int|
            0 <= j < i ==> (#[trigger] h@[j]).0@ != k@,
        r is None ==> forall|j: int| 0 <= j < h@.len() ==> (#[trigger] h@[j]).0@ != k@,
{
    let mut i: usize = 0;
    while i < h.len()
        invariant
            i <= h@.len(),
            forall|j: int| 0 <= j < i ==> (#[trigger] h@[j]).0@ != k@,
        decreases h@.len() - i,
    {
        if str_eq(h[i].0.as_str(), k) {
            return Some(i);
        }
        i = i + 1;
    }
    None
}

/// Inserts `k => v` into the insertion-ordered Perl hash `h`.
fn perl_hash_insert(h: &mut Vec<(String, PerlValue)>, k: String, v: PerlValue)
    ensures
        model_pairs(final(h)@) == map_insert(model_pairs(old(h)@), k@, v@),
{
    proof {
        lemma_model_pairs(h@);
        lemma_key_position(model_pairs(h@), k@);
    }
    let ghost old_h = h@;
    let ghost kk = k@;
    let ghost vv = v@;
    match find_key(h, k.as_str()) {
        Some(i) => {
            assert(key_position(model_pairs(old_h), kk) == i as int) by {
                let p = key_position(model_pairs(old_h), kk);
                if p == -1 {
                    assert(model_pairs(old_h)[i as int].0 == old_h[i as int].0@);
                } else if p < i {
                    assert(model_pairs(old_h)[p].0 == old_h[p].0@);
                } else if p > i {
                    assert(model_pairs(old_h)[i as int].0 == old_h[i as int].0@);
                }
            }
            h.set(i, (k, v));
            proof {
                lemma_model_pairs(h@);
                assert(model_pairs(h@) =~= model_pairs(old_h).update(i as int, (kk, vv)));
            }
        },
        None => {
            assert(key_position(model_pairs(old_h), kk) == -1) by {
                let p = key_position(model_pairs(old_h), kk);
                if p >= 0 {
                    assert(model_pairs(old_h)[p].0 == old_h[p].0@);
                }
            }
            h.push((k, v));
            proof {
                lemma_model_pairs(h@);
                assert(model_pairs(h@) =~= model_pairs(old_h).push((kk, vv)));
            }
        },
    }
}

/// Converts a JSON value to the Perl value it stands for (see
/// [`spec_json_to_perl`]). Every JSON value converts.
pub fn json_to_perl(v: &JsonValue) -> (r: Result<PerlValue, String>)
    ensures
        r matches Ok(p) && p@ == spec_json_to_perl(v@),
    decreases v,
{
    let p = match v {
        JsonValue::Null => PerlValue::Undef,
        JsonValue::Bool(b) => PerlValue::Integer(if *b { 1 } else { 0 }),
        JsonValue::Number(JsonNumber::NegInt(i)) => PerlValue::Integer(*i),
        JsonValue::Number(JsonNumber::PosInt(u)) => PerlValue::Integer(#[verifier::truncate] (*u as i64)),
        JsonValue::Number(JsonNumber::Float(f)) => PerlValue::Float(*f),
        JsonValue::String(s) => PerlValue::String(s.clone()),
        JsonValue::Array(a) => {
            let mut items: Vec<PerlValue> = Vec::new();
            let mut i: usize = 0;
            while i < a.len()
                invariant
                    *v == JsonValue::Array(*a),
                    i <= a@.len(),
                    items@.len() == i,
                    forall|j: int|
                        0 <= j < i ==> #[trigger] model_of(items@[j]) == spec_json_to_perl(
                            json_model_of(a@[j]),
                        ),
                decreases a@.len() - i,
            {
                proof {
                    vstd::std_specs::vec::axiom_vec_index_decreases(*a, i as int);
                }
                let x = json_to_perl(&a[i]);
                match x {
                    Ok(pv) => {
                        items.push(pv);
                    },
                    Err(e) => {
                        return Err(e);
                    },
                }
                i = i + 1;
            }
            proof {
                lemma_model_seq(items@);
                lemma_json_model_seq(a@);
                lemma_json_seq_to_perl(json_model_seq(a@));
                assert(model_seq(items@) =~= json_seq_to_perl(json_model_seq(a@)));
            }
            PerlValue::Array(items)
        },
        JsonValue::Object(o) => {
            let mut h: Vec<(String, PerlValue)> = Vec::new();
            let ghost entries = json_model_pairs(o@);
            proof {
                lemma_json_model_pairs(o@);
                assert(entries.subrange(0, 0) =~= Seq::<(Seq<char>, JsonModel)>::empty());
            }
            let mut i: usize = 0;
            while i < o.len()
                invariant
                    *v == JsonValue::Object(*o),
                    i <= o@.len(),
                    entries == json_model_pairs(o@),
                    entries.len() == o@.len(),
                    forall|j: int|
                        0 <= j < o@.len() ==> #[trigger] entries[j] == (o@[j].0@, json_model_of(
                            o@[j].1,
                        )),
                    model_pairs(h@) == json_pairs_to_perl(entries.subrange(0, i as int)),
                decreases o@.len() - i,
            {
                proof {
                    vstd::std_specs::vec::axiom_vec_index_decreases(*o, i as int);
                }
                let x = json_to_perl(&o[i].1);
                match x {
                    Ok(pv) => {
                        proof {
                            assert(entries.subrange(0, i + 1).drop_last() =~= entries.subrange(
                                0,
                                i as int,
                            ));
                        }
                        perl_hash_insert(&mut h, o[i].0.clone(), pv);
                    },
                    Err(e) => {
                        return Err(e);
                    },
                }
                i = i + 1;
            }
            proof {
                assert(entries.subrange(0, o@.len() as int) =~= entries);
            }
            PerlValue::Hash(h)
        },
    };
    Ok(p)
}


proof fn lemma_seq_err_prefix(s: Seq<PerlModel>, n: int)
    requires
        0 <= n <= s.len(),
        perl_seq_to_json(s.subrange(0, n)) is Err,
    ensures
        perl_seq_to_json(s) == perl_seq_to_json(s.subrange(0, n)),
    decreases s.len(),
{
    if n < s.len() {
        assert(s.drop_last().subrange(0, n) =~= s.subrange(0, n));
        lemma_seq_err_prefix(s.drop_last(), n);
    } else {
        assert(s.subrange(0, n) =~= s);
    }
}

proof fn lemma_pairs_err_prefix(s: Seq<(Seq<char>, PerlModel)>, n: int)
    requires
        0 <= n <= s.len(),
        perl_pairs_to_json(s.subrange(0, n)) is Err,
    ensures
        perl_pairs_to_json(s) == perl_pairs_to_json(s.subrange(0, n)),
    decreases s.len(),
{
    if n < s.len() {
        assert(s.drop_last().subrange(0, n) =~= s.subrange(0, n));
        lemma_pairs_err_prefix(s.drop_last(), n);
    } else {
        assert(s.subrange(0, n) =~= s);
    }
}

/// Inserts `k => v` into the JSON object entries `h`.
fn json_object_insert(h: &mut Vec<(String, JsonValue)>, k: String, v: JsonValue)
    ensures
        json_model_pairs(final(h)@) == map_insert(json_model_pairs(old(h)@), k@, v@),
{
    proof {
        lemma_json_model_pairs(h@);
        lemma_key_position(json_model_pairs(h@), k@);
    }
    let ghost old_h = h@;
    let ghost kk = k@;
    let ghost vv = v@;
    match find_key(h, k.as_str()) {
        Some(i) => {
            assert(key_position(json_model_pairs(old_h), kk) == i as int) by {
                let p = key_position(json_model_pairs(old_h), kk);
                if p == -1 {
                    assert(json_model_pairs(old_h)[i as int].0 == old_h[i as int].0@);
                } else if p < i {
                    assert(json_model_pairs(old_h)[p].0 == old_h[p].0@);
                } else if p > i {
                    assert(json_model_pairs(old_h)[i as int].0 == old_h[i as int].0@);
                }
            }
            h.set(i, (k, v));
            proof {
                lemma_json_model_pairs(h@);
                assert(json_model_pairs(h@) =~= json_model_pairs(old_h).update(i as int, (kk, vv)));
            }
        },
        None => {
            assert(key_position(json_model_pairs(old_h), kk) == -1) by {
                let p = key_position(json_model_pairs(old_h), kk);
                if p >= 0 {
                    assert(json_model_pairs(old_h)[p].0 == old_h[p].0@);
                }
            }
            h.push((k, v));
            proof {
                lemma_json_model_pairs(h@);
                assert(json_model_pairs(h@) =~= json_model_pairs(old_h).push((kk, vv)));
            }
        },
    }
}

/// The message for a value without a JSON form.
fn unsupported(kind_name: &str) -> (m: String)
    ensures
        m@ == unsupported_message(kind_name@),
{
    let mut m = String::new();
    push_str(
        &mut m,
        "value not supported for remote pmap (need null, bool/int/float/string/array/hash): ",
    );
    push_str(&mut m, kind_name);
    m
}

/// Converts a Perl value to its JSON form (see [`spec_perl_to_json`]); fails with a
/// message naming the kind of a value that has none.
pub fn perl_to_json_value(v: &PerlValue) -> (r: Result<JsonValue, String>)
    ensures
        match (r, spec_perl_to_json(v@)) {
            (Ok(j), Ok(sj)) => j@ == sj,
            (Err(e), Err(se)) => e@ == se,
            _ => false,
        },
    decreases v,
{
    match v {
        PerlValue::Undef => Ok(JsonValue::Null),
        PerlValue::Integer(i) => {
            if *i < 0 {
                Ok(JsonValue::Number(JsonNumber::NegInt(*i)))
            } else {
                Ok(JsonValue::Number(JsonNumber::PosInt(*i as u64)))
            }
        },
        PerlValue::Float(f) => {
            if is_raw_float_bits(*f) {
                Ok(JsonValue::Number(JsonNumber::Float(*f)))
            } else {
                Ok(JsonValue::Null)
            }
        },
        PerlValue::String(s) => Ok(JsonValue::String(s.clone())),
        PerlValue::Array(a) => {
            let ghost ms = model_seq(a@);
            proof {
                lemma_model_seq(a@);
                assert(ms.subrange(0, 0) =~= Seq::<PerlModel>::empty());
            }
            let mut out: Vec<JsonValue> = Vec::new();
            let mut i: usize = 0;
            while i < a.len()
                invariant
                    *v == PerlValue::Array(*a),
                    ms == model_seq(a@),
                    ms.len() == a@.len(),
                    forall|j: int| 0 <= j < a@.len() ==> #[trigger] ms[j] == model_of(a@[j]),
                    i <= a@.len(),
                    perl_seq_to_json(ms.subrange(0, i as int)) == Ok::<Seq<JsonModel>, Seq<char>>(
                        json_model_seq(out@),
                    ),
                decreases a@.len() - i,
            {
                proof {
                    vstd::std_specs::vec::axiom_vec_index_decreases(*a, i as int);
                    assert(ms.subrange(0, i + 1).drop_last() =~= ms.subrange(0, i as int));
                }
                match perl_to_json_value(&a[i]) {
                    Ok(j) => {
                        let ghost old_out = out@;
                        out.push(j);
                        proof {
                            assert(out@.drop_last() =~= old_out);
                        }
                    },
                    Err(e) => {
                        proof {
                            lemma_seq_err_prefix(ms, i + 1);
                        }
                        return Err(e);
                    },
                }
                i = i + 1;
            }
            proof {
                assert(ms.subrange(0, a@.len() as int) =~= ms);
            }
            Ok(JsonValue::Array(out))
        },
        PerlValue::Hash(h) => {
            let ghost ms = model_pairs(h@);
            proof {
                lemma_model_pairs(h@);
                assert(ms.subrange(0, 0) =~= Seq::<(Seq<char>, PerlModel)>::empty());
            }
            let mut out: Vec<(String, JsonValue)> = Vec::new();
            let mut i: usize = 0;
            while i < h.len()
                invariant
                    *v == PerlValue::Hash(*h),
                    ms == model_pairs(h@),
                    ms.len() == h@.len(),
                    forall|j: int|
                        0 <= j < h@.len() ==> #[trigger] ms[j] == (h@[j].0@, model_of(h@[j].1)),
                    i <= h@.len(),
                    perl_pairs_to_json(ms.subrange(0, i as int)) == Ok::<
                        Seq<(Seq<char>, JsonModel)>,
                        Seq<char>,
                    >(json_model_pairs(out@)),
                decreases h@.len() - i,
            {
                proof {
                    vstd::std_specs::vec::axiom_vec_index_decreases(*h, i as int);
                    assert(ms.subrange(0, i + 1).drop_last() =~= ms.subrange(0, i as int));
                }
                match perl_to_json_value(&h[i].1) {
                    Ok(j) => {
                        json_object_insert(&mut out, h[i].0.clone(), j);
                    },
                    Err(e) => {
                        proof {
                            lemma_pairs_err_prefix(ms, i + 1);
                        }
                        return Err(e);
                    },
                }
                i = i + 1;
            }
            proof {
                assert(ms.subrange(0, h@.len() as int) =~= ms);
            }
            Ok(JsonValue::Object(out))
        },
        PerlValue::Code(_) => Err(unsupported("CODE")),
    }
}

/// Converts captured lexicals to JSON, in order; the first value without a JSON
/// form makes the whole conversion fail with its message.
pub fn capture_entries_to_json(entries: &[(String, PerlValue)]) -> (r: Result<
    Vec<(String, JsonValue)>,
    String,
>)
    ensures
        match r {
            Ok(out) => out@.len() == entries@.len() && forall|j: int|
                0 <= j < entries@.len() ==> (#[trigger] out@[j]).0@ == entries@[j].0@
                    && spec_perl_to_json(entries@[j].1@) == Ok::<JsonModel, Seq<char>>(out@[j].1@),
            Err(e) => exists|j: int|
                0 <= j < entries@.len() && spec_perl_to_json((#[trigger] entries@[j]).1@) == Err::<
                    JsonModel,
                    Seq<char>,
                >(e@) && forall|i: int|
                    0 <= i < j ==> (#[trigger] spec_perl_to_json(entries@[i].1@)) is Ok,
        },
{
    let mut out: Vec<(String, JsonValue)> = Vec::new();
    let mut i: usize = 0;
    while i < entries.len()
        invariant
            i <= entries@.len(),
            out@.len() == i,
            forall|j: int|
                0 <= j < i ==> (#[trigger] out@[j]).0@ == entries@[j].0@ && spec_perl_to_json(
                    entries@[j].1@,
                ) == Ok::<JsonModel, Seq<char>>(out@[j].1@),
        decreases entries@.len() - i,
    {
        match perl_to_json_value(&entries[i].1) {
            Ok(j) => {
                out.push((entries[i].0.clone(), j));
            },
            Err(e) => {
                assert(forall|k: int| 0 <= k < i ==> (#[trigger] spec_perl_to_json(entries@[k].1@)) is Ok)
                    by {
                    assert forall|k: int| 0 <= k < i implies (#[trigger] spec_perl_to_json(
                        entries@[k].1@,
                    )) is Ok by {
                        assert(out@[k].0@ == entries@[k].0@);
                    }
                }
                return Err(e);
            },
        }
        i = i + 1;
    }
    Ok(out)
}


/// The keys of `h` are pairwise distinct.
pub open spec fn distinct_keys<V>(h: Seq<(Seq<char>, V)>) -> bool {
    forall|i: int, j: int| 0 <= i < j < h.len() ==> (#[trigger] h[i]).0 != (#[trigger] h[j]).0
}

/// A Perl value that survives the trip through JSON unchanged: no code reference,
/// no NaN or infinite double, and hashes with distinct keys, all the way down.
pub open spec fn perl_json_safe(p: PerlModel) -> bool
    decreases p,
{
    match p {
        PerlModel::Float(f) => spec_is_raw_float_bits(f),
        PerlModel::Code(_) => false,
        PerlModel::Array(a) => forall|i: int| 0 <= i < a.len() ==> perl_json_safe(#[trigger] a[i]),
        PerlModel::Hash(h) => distinct_keys(h) && forall|i: int|
            0 <= i < h.len() ==> perl_json_safe((#[trigger] h[i]).1),
        _ => true,
    }
}

/// A JSON value that survives the trip through Perl unchanged: no booleans, no
/// integer above `i64::MAX`, and objects with distinct keys, all the way down.
pub open spec fn json_perl_safe(j: JsonModel) -> bool
    decreases j,
{
    match j {
        JsonModel::Bool(_) => false,
        JsonModel::Number(JsonNumber::PosInt(u)) => u <= i64::MAX,
        JsonModel::Number(JsonNumber::NegInt(i)) => i < 0,
        JsonModel::Number(JsonNumber::Float(f)) => spec_is_raw_float_bits(f),
        JsonModel::Array(a) => forall|i: int| 0 <= i < a.len() ==> json_perl_safe(#[trigger] a[i]),
        JsonModel::Object(o) => distinct_keys(o) && forall|i: int|
            0 <= i < o.len() ==> json_perl_safe((#[trigger] o[i]).1),
        _ => true,
    }
}

proof fn lemma_insert_fresh<V>(h: Seq<(Seq<char>, V)>, k: Seq<char>, v: V)
    requires
        forall|i: int| 0 <= i < h.len() ==> (#[trigger] h[i]).0 != k,
    ensures
        map_insert(h, k, v) == h.push((k, v)),
{
    lemma_key_position(h, k);
    if key_position(h, k) >= 0 {
        assert(h[key_position(h, k)].0 == k);
    }
}

proof fn lemma_perl_seq_ok(s: Seq<PerlModel>)
    requires
        forall|i: int| 0 <= i < s.len() ==> (#[trigger] spec_perl_to_json(s[i])) is Ok,
    ensures
        perl_seq_to_json(s) is Ok,
        perl_seq_to_json(s)->Ok_0.len() == s.len(),
        forall|i: int|
            0 <= i < s.len() ==> #[trigger] perl_seq_to_json(s)->Ok_0[i] == spec_perl_to_json(
                s[i],
            )->Ok_0,
    decreases s.len(),
{
    if s.len() > 0 {
        lemma_perl_seq_ok(s.drop_last());
        assert(spec_perl_to_json(s[s.len() - 1]) is Ok);
    }
}

proof fn lemma_perl_pairs_ok(s: Seq<(Seq<char>, PerlModel)>)
    requires
        distinct_keys(s),
        forall|i: int| 0 <= i < s.len() ==> (#[trigger] spec_perl_to_json(s[i].1)) is Ok,
    ensures
        perl_pairs_to_json(s) is Ok,
        perl_pairs_to_json(s)->Ok_0.len() == s.len(),
        forall|i: int|
            0 <= i < s.len() ==> #[trigger] perl_pairs_to_json(s)->Ok_0[i] == (
                s[i].0,
                spec_perl_to_json(s[i].1)->Ok_0,
            ),
    decreases s.len(),
{
    if s.len() > 0 {
        let d = s.drop_last();
        assert(distinct_keys(d)) by {
            assert forall|i: int, j: int| 0 <= i < j < d.len() implies (#[trigger] d[i]).0 != (
            #[trigger] d[j]).0 by {
                assert(d[i] == s[i] && d[j] == s[j]);
            }
        }
        assert forall|i: int| 0 <= i < d.len() implies (#[trigger] spec_perl_to_json(d[i].1)) is Ok by {
            assert(d[i] == s[i]);
        }
        lemma_perl_pairs_ok(d);
        let prev = perl_pairs_to_json(d)->Ok_0;
        let last = s[s.len() - 1];
        assert(spec_perl_to_json(last.1) is Ok);
        assert forall|i: int| 0 <= i < prev.len() implies (#[trigger] prev[i]).0 != last.0 by {
            assert(prev[i].0 == d[i].0);
            assert(d[i] == s[i]);
        }
        lemma_insert_fresh(prev, last.0, spec_perl_to_json(last.1)->Ok_0);
    }
}

proof fn lemma_json_pairs_fresh(s: Seq<(Seq<char>, JsonModel)>)
    requires
        distinct_keys(s),
    ensures
        json_pairs_to_perl(s).len() == s.len(),
        forall|i: int|
            0 <= i < s.len() ==> #[trigger] json_pairs_to_perl(s)[i] == (
                s[i].0,
                spec_json_to_perl(s[i].1),
            ),
    decreases s.len(),
{
    if s.len() > 0 {
        let d = s.drop_last();
        assert(distinct_keys(d)) by {
            assert forall|i: int, j: int| 0 <= i < j < d.len() implies (#[trigger] d[i]).0 != (
            #[trigger] d[j]).0 by {
                assert(d[i] == s[i] && d[j] == s[j]);
            }
        }
        lemma_json_pairs_fresh(d);
        let prev = json_pairs_to_perl(d);
        let last = s[s.len() - 1];
        assert forall|i: int| 0 <= i < prev.len() implies (#[trigger] prev[i]).0 != last.0 by {
            assert(d[i] == s[i]);
        }
        lemma_insert_fresh(prev, last.0, spec_json_to_perl(last.1));
    }
}

/// A Perl value without code references, NaNs or infinities, and with distinct
/// hash keys, comes back unchanged from its JSON form: what a remote worker
/// receives is what was sent.
pub proof fn lemma_perl_json_roundtrip(p: PerlModel)
    requires
        perl_json_safe(p),
    ensures
        spec_perl_to_json(p) is Ok,
        spec_json_to_perl(spec_perl_to_json(p)->Ok_0) == p,
    decreases p,
{
    match p {
        PerlModel::Integer(i) => {},
        PerlModel::Array(a) => {
            assert forall|i: int| 0 <= i < a.len() implies (#[trigger] spec_perl_to_json(a[i])) is Ok
                && spec_json_to_perl(spec_perl_to_json(a[i])->Ok_0) == a[i] by {
                lemma_perl_json_roundtrip(a[i]);
            }
            lemma_perl_seq_ok(a);
            let js = perl_seq_to_json(a)->Ok_0;
            lemma_json_seq_to_perl(js);
            assert(json_seq_to_perl(js) =~= a);
        },
        PerlModel::Hash(h) => {
            assert forall|i: int| 0 <= i < h.len() implies (#[trigger] spec_perl_to_json(h[i].1)) is Ok
                && spec_json_to_perl(spec_perl_to_json(h[i].1)->Ok_0) == h[i].1 by {
                lemma_perl_json_roundtrip(h[i].1);
            }
            lemma_perl_pairs_ok(h);
            let js = perl_pairs_to_json(h)->Ok_0;
            assert(distinct_keys(js)) by {
                assert forall|i: int, j: int| 0 <= i < j < js.len() implies (#[trigger] js[i]).0 != (
                #[trigger] js[j]).0 by {
                    assert(js[i].0 == h[i].0 && js[j].0 == h[j].0);
                }
            }
            lemma_json_pairs_fresh(js);
            assert(json_pairs_to_perl(js) =~= h);
        },
        _ => {},
    }
}

/// A JSON value without booleans, with integers within `i64`, and with distinct
/// object keys, comes back unchanged from its Perl form: what a worker answers is
/// what the caller reads.
pub proof fn lemma_json_perl_roundtrip(j: JsonModel)
    requires
        json_perl_safe(j),
    ensures
        spec_perl_to_json(spec_json_to_perl(j)) == Ok::<JsonModel, Seq<char>>(j),
    decreases j,
{
    match j {
        JsonModel::Array(a) => {
            let ps = json_seq_to_perl(a);
            lemma_json_seq_to_perl(a);
            assert forall|i: int| 0 <= i < ps.len() implies (#[trigger] spec_perl_to_json(ps[i]))
                == Ok::<JsonModel, Seq<char>>(a[i]) by {
                lemma_json_perl_roundtrip(a[i]);
            }
            lemma_perl_seq_ok(ps);
            assert(perl_seq_to_json(ps)->Ok_0 =~= a);
        },
        JsonModel::Object(o) => {
            lemma_json_pairs_fresh(o);
            let ps = json_pairs_to_perl(o);
            assert forall|i: int| 0 <= i < ps.len() implies (#[trigger] spec_perl_to_json(ps[i].1))
                == Ok::<JsonModel, Seq<char>>(o[i].1) by {
                lemma_json_perl_roundtrip(o[i].1);
            }
            assert(distinct_keys(ps)) by {
                assert forall|i: int, k: int| 0 <= i < k < ps.len() implies (#[trigger] ps[i]).0 != (
                #[trigger] ps[k]).0 by {
                    assert(ps[i].0 == o[i].0 && ps[k].0 == o[k].0);
                }
            }
            lemma_perl_pairs_ok(ps);
            assert(perl_pairs_to_json(ps)->Ok_0 =~= o);
        },
        JsonModel::Number(JsonNumber::PosInt(u)) => {
            assert((u as i64) >= 0);
            assert(((u as i64) as u64) == u);
        },
        _ => {},
    }
}


/// One unit of work for a remote worker.
pub struct RemoteJobV1 {
    pub seq: u64,
    pub subs_prelude: String,
    pub block_src: String,
    pub capture: Vec<(String, JsonValue)>,
    pub item: JsonValue,
}

/// A remote worker's answer to one job.
pub struct RemoteRespV1 {
    pub seq: u64,
    pub ok: bool,
    pub result: JsonValue,
    pub err_msg: String,
}

/// A named subroutine as the prelude needs it: whether it closes over lexicals,
/// its signature parameters and body already rendered as Perl source, and its
/// prototype.
pub struct PerlSub {
    pub has_closure_env: bool,
    pub params: Vec<String>,
    pub prototype: Option<String>,
    pub body: String,
}

/// Byte-wise lexicographic order (the order of Rust strings): `a` sorts no later than `b`.
pub open spec fn bytes_le(a: Seq<u8>, b: Seq<u8>) -> bool
    decreases a.len(),
{
    if a.len() == 0 {
        true
    } else if b.len() == 0 {
        false
    } else if a[0] != b[0] {
        a[0] < b[0]
    } else {
        bytes_le(a.drop_first(), b.drop_first())
    }
}

/// The parameters joined with `", "`.
pub open spec fn join_params(ps: Seq<String>) -> Seq<char>
    decreases ps.len(),
{
    if ps.len() == 0 {
        seq![]
    } else if ps.len() == 1 {
        ps[0]@
    } else {
        join_params(ps.drop_last()) + ", "@ + ps.last()@
    }
}

/// Joining two non-empty parameter lists one after the other puts `", "` between
/// them: every two neighbouring parameters are separated by `", "`, however many
/// there are.
pub proof fn law_join_params_append(ps: Seq<String>, qs: Seq<String>)
    requires
        ps.len() > 0,
        qs.len() > 0,
    ensures
        join_params(ps + qs) == join_params(ps) + ", "@ + join_params(qs),
    decreases qs.len(),
{
    if qs.len() == 1 {
        assert((ps + qs).drop_last() =~= ps);
        assert(join_params(qs) == qs[0]@);
    } else {
        assert((ps + qs).drop_last() =~= ps + qs.drop_last());
        law_join_params_append(ps, qs.drop_last());
        assert((ps + qs).last() == qs.last());
    }
}

/// A single parameter is written as it is, and a list of several is its first
/// parameter, `", "` and the rest joined.
pub proof fn law_join_params_first(ps: Seq<String>)
    requires
        ps.len() > 0,
    ensures
        ps.len() == 1 ==> join_params(ps) == ps[0]@,
        ps.len() > 1 ==> join_params(ps) == ps[0]@ + ", "@ + join_params(ps.drop_first()),
{
    if ps.len() > 1 {
        assert(seq![ps[0]] + ps.drop_first() =~= ps);
        law_join_params_append(seq![ps[0]], ps.drop_first());
    }
}

/// The signature text after the sub's name: its parameters, else its prototype,
/// in parentheses after a space; nothing when it has neither.
pub open spec fn sub_signature(sub: PerlSub) -> Seq<char> {
    if sub.params@.len() > 0 {
        " ("@ + join_params(sub.params@) + ")"@
    } else if sub.prototype is Some {
        " ("@ + sub.prototype->Some_0@ + ")"@
    } else {
        seq![]
    }
}

/// The source text that redefines one sub.
pub open spec fn sub_definition(name: Seq<char>, sub: PerlSub) -> Seq<char> {
    "sub "@ + name + sub_signature(sub) + " {\n"@ + sub.body@ + "\n}\n"@
}

/// The definitions of the subs in `entries`, in that order, skipping those that
/// close over lexicals.
pub open spec fn prelude_text(entries: Seq<(String, PerlSub)>) -> Seq<char>
    decreases entries.len(),
{
    if entries.len() == 0 {
        seq![]
    } else {
        let prev = prelude_text(entries.drop_last());
        let e = entries.last();
        if e.1.has_closure_env {
            prev
        } else {
            prev + sub_definition(e.0@, e.1)
        }
    }
}

/// `order` lists each of `0..n` exactly once.
pub open spec fn is_permutation(order: Seq<int>, n: int) -> bool {
    &&& order.len() == n
    &&& forall|i: int| 0 <= i < n ==> 0 <= #[trigger] order[i] < n
    &&& forall|i: int, j: int| 0 <= i < j < n ==> order[i] != order[j]
}

/// `entries` rearranged by `order`.
pub open spec fn arranged<T>(entries: Seq<T>, order: Seq<int>) -> Seq<T> {
    Seq::new(order.len(), |i: int| entries[order[i]])
}

/// The names of `entries` are pairwise distinct.
pub open spec fn distinct_names(entries: Seq<(String, PerlSub)>) -> bool {
    forall|i: int, j: int| 0 <= i < j < entries.len() ==> (#[trigger] entries[i]).0@ != (
    #[trigger] entries[j]).0@
}

proof fn lemma_bytes_le_skip(a: Seq<u8>, b: Seq<u8>, i: int)
    requires
        0 <= i <= a.len(),
        i <= b.len(),
        forall|j: int| 0 <= j < i ==> a[j] == b[j],
    ensures
        bytes_le(a, b) == bytes_le(a.skip(i), b.skip(i)),
    decreases i,
{
    if i > 0 {
        assert(a.drop_first().skip(i - 1) =~= a.skip(i));
        assert(b.drop_first().skip(i - 1) =~= b.skip(i));
        lemma_bytes_le_skip(a.drop_first(), b.drop_first(), i - 1);
    } else {
        assert(a.skip(0) =~= a);
        assert(b.skip(0) =~= b);
    }
}

proof fn lemma_bytes_le_total(a: Seq<u8>, b: Seq<u8>)
    ensures
        bytes_le(a, b) || bytes_le(b, a),
    decreases a.len(),
{
    if a.len() > 0 && b.len() > 0 && a[0] == b[0] {
        lemma_bytes_le_total(a.drop_first(), b.drop_first());
    }
}

/// Whether `a` sorts no later than `b` in byte-wise order.
fn bytes_le_exec(a: &[u8], b: &[u8]) -> (r: bool)
    ensures
        r == bytes_le(a@, b@),
{
    let mut i: usize = 0;
    while i < a.len() && i < b.len() && a[i] == b[i]
        invariant
            i <= a@.len(),
            i <= b@.len(),
            forall|j: int| 0 <= j < i ==> a@[j] == b@[j],
        decreases a@.len() - i,
    {
        i = i + 1;
    }
    proof {
        lemma_bytes_le_skip(a@, b@, i as int);
    }
    if i == a.len() {
        true
    } else if i == b.len() {
        false
    } else {
        a[i] < b[i]
    }
}

/// Appends the parameters joined with `", "`.
fn push_joined(out: &mut String, ps: &Vec<String>)
    ensures
        final(out)@ == old(out)@ + join_params(ps@),
{
    let ghost start = out@;
    let mut i: usize = 0;
    while i < ps.len()
        invariant
            i <= ps@.len(),
            out@ == start + join_params(ps@.subrange(0, i as int)),
        decreases ps@.len() - i,
    {
        let ghost before = out@;
        assert(ps@.subrange(0, i + 1).drop_last() =~= ps@.subrange(0, i as int));
        if i > 0 {
            push_str(out, ", ");
        }
        push_str(out, ps[i].as_str());
        i = i + 1;
        proof {
            if i == 1 {
                assert(ps@.subrange(0, 0).len() == 0);
                assert(out@ =~= start + join_params(ps@.subrange(0, i as int)));
            } else {
                assert(out@ =~= start + join_params(ps@.subrange(0, i as int)));
            }
        }
    }
    assert(ps@.subrange(0, ps@.len() as int) =~= ps@);
}

/// The UTF-8 bytes of an entry's name.
pub open spec fn name_bytes(e: (String, PerlSub)) -> Seq<u8> {
    encode_utf8(e.0@)
}

/// The entries are in byte-wise order of their names.
pub open spec fn sorted_by_name(es: Seq<(String, PerlSub)>) -> bool {
    forall|i: int, j: int| 0 <= i < j < es.len() ==> bytes_le(name_bytes(#[trigger] es[i]), name_bytes(#[trigger] es[j]))
}

proof fn lemma_bytes_le_refl(a: Seq<u8>)
    ensures
        bytes_le(a, a),
    decreases a.len(),
{
    if a.len() > 0 {
        lemma_bytes_le_refl(a.drop_first());
    }
}

proof fn lemma_bytes_le_trans(a: Seq<u8>, b: Seq<u8>, c: Seq<u8>)
    requires
        bytes_le(a, b),
        bytes_le(b, c),
    ensures
        bytes_le(a, c),
    decreases a.len(),
{
    if a.len() > 0 && b.len() > 0 && c.len() > 0 && a[0] == b[0] && b[0] == c[0] {
        lemma_bytes_le_trans(a.drop_first(), b.drop_first(), c.drop_first());
    }
}

/// Perl source that redefines every named sub that does not close over lexicals,
/// in byte-wise order of the names: `sub NAME SIG {\nBODY\n}\n` for each, where SIG
/// is ` (PARAMS)` or ` (PROTOTYPE)` or nothing.
pub fn build_subs_prelude(subs: &Vec<(String, PerlSub)>) -> (s: String)
    requires
        distinct_names(subs@),
    ensures
        exists|order: Seq<int>|
            is_permutation(order, subs@.len() as int) && sorted_by_name(arranged(subs@, order))
                && s@ == prelude_text(arranged(subs@, order)),
{
    let n = subs.len();
    let mut used: Vec<bool> = Vec::new();
    let mut k: usize = 0;
    while k < n
        invariant
            n == subs@.len(),
            k <= n,
            used@.len() == k,
            forall|j: int| 0 <= j < k ==> !used@[j],
        decreases n - k,
    {
        used.push(false);
        k = k + 1;
    }
    let mut order: Vec<usize> = Vec::new();
    while order.len() < n
        invariant
            n == subs@.len(),
            used@.len() == n,
            order@.len() <= n,
            forall|i: int| 0 <= i < order@.len() ==> (#[trigger] order@[i]) < n,
            forall|i: int, j: int| 0 <= i < j < order@.len() ==> order@[i] != order@[j],
            forall|u: int| 0 <= u < n ==> (used@[u] <==> exists|i: int| 0 <= i < order@.len() && order@[i] == u),
            forall|i: int, j: int|
                0 <= i < j < order@.len() ==> bytes_le(
                    name_bytes(subs@[order@[i] as int]),
                    name_bytes(subs@[order@[j] as int]),
                ),
            forall|i: int, u: int|
                0 <= i < order@.len() && 0 <= u < n && !used@[u] ==> bytes_le(
                    name_bytes(subs@[#[trigger] order@[i] as int]),
                    name_bytes(#[trigger] subs@[u]),
                ),
        decreases n - order@.len(),
    {
        // Some index is still unused.
        proof {
            if forall|u: int| 0 <= u < n ==> used@[u] {
                // Then `order` lists n distinct indices below n ... and has fewer than n entries.
                let os = order@.map_values(|x: usize| x as int);
                lemma_pigeonhole(os, n as int);
                let u = choose|u: int| 0 <= u < n && #[trigger] not_listed(os, u);
                assert(used@[u]);
                let i = choose|i: int| 0 <= i < order@.len() && order@[i] == u;
                assert(os[i] == u);
                assert(false);
            }
        }
        let mut best: usize = 0;
        let mut found = false;
        let mut j: usize = 0;
        while j < n
            invariant
                n == subs@.len(),
                used@.len() == n,
                j <= n,
                found ==> best < n && !used@[best as int],
                found ==> forall|u: int|
                    0 <= u < j && !used@[u] ==> bytes_le(
                        name_bytes(subs@[best as int]),
                        name_bytes(#[trigger] subs@[u]),
                    ),
                !found ==> forall|u: int| 0 <= u < j ==> used@[u],
            decreases n - j,
        {
            proof {
                lemma_bytes_le_refl(name_bytes(subs@[j as int]));
            }
            if !used[j] {
                if !found {
                    best = j;
                    found = true;
                } else if !bytes_le_exec(subs[best].0.as_str().as_bytes(), subs[j].0.as_str().as_bytes()) {
                    proof {
                        lemma_bytes_le_total(name_bytes(subs@[best as int]), name_bytes(subs@[j as int]));
                        assert forall|u: int|
                            0 <= u < j && !used@[u] implies bytes_le(
                                name_bytes(subs@[j as int]),
                                name_bytes(#[trigger] subs@[u]),
                            ) by {
                            lemma_bytes_le_trans(
                                name_bytes(subs@[j as int]),
                                name_bytes(subs@[best as int]),
                                name_bytes(subs@[u]),
                            );
                        }
                    }
                    best = j;
                }
            }
            j = j + 1;
        }
        assert(found);
        let ghost old_order = order@;
        let ghost old_used = used@;
        order.push(best);
        used.set(best, true);
        proof {
            assert forall|u: int| 0 <= u < n implies (used@[u] <==> exists|i: int|
                0 <= i < order@.len() && order@[i] == u) by {
                if u == best as int {
                    assert(order@[order@.len() - 1] == u);
                } else {
                    if used@[u] {
                        let i = choose|i: int| 0 <= i < old_order.len() && old_order[i] == u;
                        assert(order@[i] == u);
                    }
                    if exists|i: int| 0 <= i < order@.len() && order@[i] == u {
                        let i = choose|i: int| 0 <= i < order@.len() && order@[i] == u;
                        assert(i < old_order.len());
                        assert(old_order[i] == u);
                    }
                }
            }
            assert forall|i: int, j2: int| 0 <= i < j2 < order@.len() implies order@[i] != order@[j2] by {
                if j2 == order@.len() - 1 {
                    assert(old_used[old_order[i] as int]);
                }
            }
        }
    }
    let ghost ord: Seq<int> = order@.map_values(|x: usize| x as int);
    let ghost es = arranged(subs@, ord);
    // Emit the definitions in that order.
    let mut out = String::new();
    let mut i: usize = 0;
    while i < n
        invariant
            n == subs@.len(),
            order@.len() == n,
            ord == order@.map_values(|x: usize| x as int),
            es == arranged(subs@, ord),
            forall|t: int| 0 <= t < n ==> (#[trigger] order@[t]) < n,
            i <= n,
            out@ == prelude_text(es.subrange(0, i as int)),
        decreases n - i,
    {
        let e = &subs[order[i]];
        assert(es[i as int] == subs@[order@[i as int] as int]);
        assert(es.subrange(0, i + 1).drop_last() =~= es.subrange(0, i as int));
        if !e.1.has_closure_env {
            push_str(&mut out, "sub ");
            push_str(&mut out, e.0.as_str());
            if e.1.params.len() > 0 {
                push_str(&mut out, " (");
                push_joined(&mut out, &e.1.params);
                push_str(&mut out, ")");
            } else {
                match &e.1.prototype {
                    Some(p) => {
                        push_str(&mut out, " (");
                        push_str(&mut out, p.as_str());
                        push_str(&mut out, ")");
                    },
                    None => {},
                }
            }
            push_str(&mut out, " {\n");
            push_str(&mut out, e.1.body.as_str());
            push_str(&mut out, "\n}\n");
            assert(out@ =~= prelude_text(es.subrange(0, i + 1)));
        }
        i = i + 1;
    }
    proof {
        assert(es.subrange(0, n as int) =~= es);
        assert(is_permutation(ord, n as int));
        assert(sorted_by_name(es)) by {
            assert forall|a: int, b: int| 0 <= a < b < es.len() implies bytes_le(
                name_bytes(#[trigger] es[a]),
                name_bytes(#[trigger] es[b]),
            ) by {
                assert(es[a] == subs@[order@[a] as int]);
                assert(es[b] == subs@[order@[b] as int]);
            }
        }
    }
    out
}

/// No entry of `order` is `u`.
pub open spec fn not_listed(order: Seq<int>, u: int) -> bool {
    forall|i: int| 0 <= i < order.len() ==> order[i] != u
}

proof fn lemma_pigeonhole(order: Seq<int>, n: int)
    requires
        order.len() < n,
        forall|i: int| 0 <= i < order.len() ==> 0 <= #[trigger] order[i] < n,
    ensures
        exists|u: int| 0 <= u < n && #[trigger] not_listed(order, u),
{
    broadcast use vstd::seq_lib::seq_to_set_is_finite;

    if !(exists|u: int| 0 <= u < n && #[trigger] not_listed(order, u)) {
        assert(vstd::set_lib::set_int_range(0, n).subset_of(order.to_set())) by {
            assert forall|u: int| vstd::set_lib::set_int_range(0, n).contains(u) implies order.to_set().contains(u) by {
                assert(!not_listed(order, u));
                let i = choose|i: int| 0 <= i < order.len() && order[i] == u;
                assert(order.contains(u));
            }
        }
        vstd::set_lib::lemma_int_range(0, n);
        order.lemma_cardinality_of_set();
        vstd::set_lib::lemma_len_subset(vstd::set_lib::set_int_range(0, n), order.to_set());
    }
}

} // verus!
