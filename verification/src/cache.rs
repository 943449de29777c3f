use vstd::prelude::*;

use sha1::Digest;

use vstd::string::StringSliceAdditionalSpecFns;
use vstd::utf8::encode_utf8;

use crate::compiler::{Arg, ArgView, Scope};

use vstd::bytes::{
    lemma_auto_spec_u16_to_from_le_bytes, lemma_auto_spec_u32_to_from_le_bytes,
    spec_u16_from_le_bytes, spec_u16_to_le_bytes, spec_u32_from_le_bytes, spec_u32_to_le_bytes,
    u16_from_le_bytes, u16_to_le_bytes, u32_from_le_bytes, u32_to_le_bytes,
};

verus! {

/// The magic that opens every entry file.
pub open spec fn spec_entry_magic() -> Seq<u8> {
    seq![0x4fu8, 0x42u8, 0x43u8, 0x46u8, 0x00u8, 0x01u8]
}

/// The payload of an entry: for each output in order, its length as four
/// little-endian bytes, then its bytes.
pub open spec fn spec_pack_payload(outputs: Seq<Seq<u8>>) -> Seq<u8>
    decreases outputs.len(),
{
    if outputs.len() == 0 {
        Seq::empty()
    } else {
        spec_u32_to_le_bytes(outputs.first().len() as u32) + outputs.first()
            + spec_pack_payload(outputs.drop_first())
    }
}

/// A whole entry: magic, the output count as two little-endian bytes, payload.
pub open spec fn spec_pack_entry(outputs: Seq<Seq<u8>>) -> Seq<u8> {
    spec_entry_magic() + spec_u16_to_le_bytes(outputs.len() as u16) + spec_pack_payload(outputs)
}

/// Reading `count` outputs from `pos` on; `None` when the data runs short.
pub open spec fn spec_unpack_outputs(data: Seq<u8>, pos: int, count: int) -> Option<Seq<Seq<u8>>>
    decreases count,
{
    if count <= 0 {
        Option::Some(Seq::empty())
    } else if pos + 4 > data.len() {
        Option::None
    } else {
        let len = spec_u32_from_le_bytes(data.subrange(pos, pos + 4)) as int;
        if pos + 4 + len > data.len() {
            Option::None
        } else {
            match spec_unpack_outputs(data, pos + 4 + len, count - 1) {
                Option::Some(rest) => Option::Some(
                    seq![data.subrange(pos + 4, pos + 4 + len)] + rest,
                ),
                Option::None => Option::None,
            }
        }
    }
}

/// Reading back an entry that should hold `n` outputs: `None` on a short
/// file, a wrong magic, a count that disagrees with the caller, or a length
/// field that runs past the end. Trailing bytes after the last output are
/// tolerated, as the reader never looks at them.
pub open spec fn spec_unpack_entry(data: Seq<u8>, n: int) -> Option<Seq<Seq<u8>>> {
    if data.len() < 8 {
        Option::None
    } else if data.subrange(0, 6) != spec_entry_magic() {
        Option::None
    } else if spec_u16_from_le_bytes(data.subrange(6, 8)) as int != n {
        Option::None
    } else {
        spec_unpack_outputs(data, 8, n)
    }
}

/// Packs the output files of one compile step into the bytes of an entry.
/// The format caps an entry at 65535 outputs of at most 4 GiB each.
#[verifier::loop_isolation(false)]
pub fn pack_entry(outputs: &Vec<Vec<u8>>) -> (r: Vec<u8>)
    requires
        outputs.deep_view().len() <= 0xFFFF,
        forall|i: int|
            0 <= i < outputs.deep_view().len() ==> (#[trigger] outputs.deep_view()[i]).len()
                <= 0xFFFFFFFF,
    ensures
        r@ == spec_pack_entry(outputs.deep_view()),
{
    let ghost ov = outputs.deep_view();
    proof {
        assert(ov.len() == outputs@.len());
    }
    let mut r: Vec<u8> = Vec::new();
    r.push(0x4f);
    r.push(0x42);
    r.push(0x43);
    r.push(0x46);
    r.push(0x00);
    r.push(0x01);
    proof {
        assert(r@ =~= spec_entry_magic());
    }
    let count: u16 = outputs.len() as u16;
    let mut cb = u16_to_le_bytes(count);
    r.append(&mut cb);
    proof {
        assert(ov.skip(0) =~= ov);
        assert(spec_pack_entry(ov) == r@ + spec_pack_payload(ov));
    }
    let mut i: usize = 0;
    while i < outputs.len()
        invariant
            i <= outputs@.len(),
            spec_pack_entry(ov) == r@ + spec_pack_payload(ov.skip(i as int)),
        decreases outputs@.len() - i,
    {
        proof {
            assert(ov.skip(i as int).first() == ov[i as int]);
            assert(ov.skip(i as int).drop_first() =~= ov.skip(i + 1));
            assert(ov[i as int] == outputs@[i as int]@);
        }
        let out: &Vec<u8> = &outputs[i];
        let len32: u32 = out.len() as u32;
        let mut lb = u32_to_le_bytes(len32);
        r.append(&mut lb);
        let ghost base = r@;
        let mut j: usize = 0;
        while j < out.len()
            invariant
                j <= out@.len(),
                r@ == base + out@.subrange(0, j as int),
            decreases out@.len() - j,
        {
            r.push(out[j]);
            proof {
                assert(base + out@.subrange(0, j as int) + seq![out@[j as int]] =~= base
                    + out@.subrange(0, j + 1));
            }
            j = j + 1;
        }
        proof {
            assert(out@.subrange(0, out@.len() as int) =~= out@);
            assert(spec_pack_entry(ov) == r@ + spec_pack_payload(ov.skip(i + 1)));
        }
        i = i + 1;
    }
    proof {
        assert(ov.skip(i as int) =~= Seq::<Seq<u8>>::empty());
        assert(r@ + Seq::<u8>::empty() =~= r@);
    }
    r
}

/// Reads an entry back. `n` is the number of output files the caller expects;
/// anything that does not parse as an entry of exactly `n` outputs is `None`,
/// which callers treat as a cache miss.
#[verifier::loop_isolation(false)]
pub fn unpack_entry(data: &Vec<u8>, n: usize) -> (r: Option<Vec<Vec<u8>>>)
    ensures
        r.deep_view() == spec_unpack_entry(data@, n as int),
{
    if data.len() < 8 {
        return Option::None;
    }
    if !(data[0] == 0x4f && data[1] == 0x42 && data[2] == 0x43 && data[3] == 0x46 && data[4]
        == 0x00 && data[5] == 0x01) {
        proof {
            assert(data@.subrange(0, 6) != spec_entry_magic());
        }
        return Option::None;
    }
    proof {
        assert(data@.subrange(0, 6) =~= spec_entry_magic());
    }
    let mut b2: Vec<u8> = Vec::new();
    b2.push(data[6]);
    b2.push(data[7]);
    proof {
        assert(b2@ =~= data@.subrange(6, 8));
    }
    let count = u16_from_le_bytes(b2.as_slice());
    if count as usize != n {
        return Option::None;
    }
    let mut result: Vec<Vec<u8>> = Vec::new();
    let mut pos: usize = 8;
    let mut k: usize = 0;
    proof {
        assert(result.deep_view() =~= Seq::<Seq<u8>>::empty());
        assert(result.deep_view() + (match spec_unpack_outputs(data@, 8, n as int) {
            Option::Some(rest) => rest,
            Option::None => Seq::<Seq<u8>>::empty(),
        }) =~= (match spec_unpack_outputs(data@, 8, n as int) {
            Option::Some(rest) => rest,
            Option::None => Seq::<Seq<u8>>::empty(),
        }));
    }
    while k < n
        invariant
            k <= n,
            8 <= pos <= data@.len(),
            spec_unpack_outputs(data@, 8, n as int) == (match spec_unpack_outputs(
                data@,
                pos as int,
                n - k,
            ) {
                Option::Some(rest) => Option::Some(result.deep_view() + rest),
                Option::None => Option::<Seq<Seq<u8>>>::None,
            }),
        decreases n - k,
    {
        if data.len() - pos < 4 {
            return Option::None;
        }
        let mut b4: Vec<u8> = Vec::new();
        b4.push(data[pos]);
        b4.push(data[pos + 1]);
        b4.push(data[pos + 2]);
        b4.push(data[pos + 3]);
        proof {
            assert(b4@ =~= data@.subrange(pos as int, pos + 4));
        }
        let len = u32_from_le_bytes(b4.as_slice()) as usize;
        if data.len() - (pos + 4) < len {
            return Option::None;
        }
        let mut out: Vec<u8> = Vec::new();
        let mut j: usize = 0;
        while j < len
            invariant
                j <= len,
                pos + 4 + len <= data@.len(),
                out@ == data@.subrange(pos + 4, pos + 4 + j),
            decreases len - j,
        {
            out.push(data[pos + 4 + j]);
            proof {
                assert(data@.subrange(pos + 4, pos + 4 + j) + seq![data@[pos + 4 + j]] =~= data@
                    .subrange(pos + 4, pos + 4 + j + 1));
            }
            j = j + 1;
        }
        let ghost prev = result.deep_view();
        let ghost outv = out@;
        proof {
            assert(out.deep_view() =~= outv);
        }
        result.push(out);
        proof {
            assert(result.deep_view() =~= prev + seq![outv]);
            let rest_k = spec_unpack_outputs(data@, pos as int, n - k);
            let rest_k1 = spec_unpack_outputs(data@, pos + 4 + len, n - k - 1);
            match rest_k1 {
                Option::Some(rs) => {
                    assert(rest_k == Option::Some(seq![outv] + rs));
                    assert(prev + (seq![outv] + rs) =~= result.deep_view() + rs);
                },
                Option::None => {},
            }
        }
        pos = pos + 4 + len;
        k = k + 1;
    }
    proof {
        assert(spec_unpack_outputs(data@, pos as int, 0) == Option::Some(Seq::<Seq<u8>>::empty()));
        assert(result.deep_view() + Seq::<Seq<u8>>::empty() =~= result.deep_view());
    }
    Option::Some(result)
}

/// For any list of outputs the format can carry, reading a packed entry back
/// with the same expected count yields exactly the outputs that were packed,
/// byte for byte and in order.
pub proof fn lemma_pack_unpack_roundtrip(outputs: Seq<Seq<u8>>)
    requires
        outputs.len() <= 0xFFFF,
        forall|i: int| 0 <= i < outputs.len() ==> (#[trigger] outputs[i]).len() <= 0xFFFFFFFF,
    ensures
        spec_unpack_entry(spec_pack_entry(outputs), outputs.len() as int) == Option::Some(outputs),
{
    let data = spec_pack_entry(outputs);
    lemma_auto_spec_u16_to_from_le_bytes();
    assert(data.subrange(0, 6) =~= spec_entry_magic());
    assert(data.subrange(6, 8) =~= spec_u16_to_le_bytes(outputs.len() as u16));
    assert(data.skip(8) =~= spec_pack_payload(outputs));
    lemma_unpack_payload(data, 8, outputs);
}

/// Reading `outputs.len()` blocks from `pos` gives back `outputs` whenever
/// the data from `pos` on is exactly their packed payload.
pub(crate) proof fn lemma_unpack_payload(data: Seq<u8>, pos: int, outputs: Seq<Seq<u8>>)
    requires
        0 <= pos <= data.len(),
        data.skip(pos) == spec_pack_payload(outputs),
        forall|i: int| 0 <= i < outputs.len() ==> (#[trigger] outputs[i]).len() <= 0xFFFFFFFF,
    ensures
        spec_unpack_outputs(data, pos, outputs.len() as int) == Option::Some(outputs),
    decreases outputs.len(),
{
    if outputs.len() == 0 {
    } else {
        lemma_auto_spec_u32_to_from_le_bytes();
        let head = outputs.first();
        let len = head.len() as int;
        let lb = spec_u32_to_le_bytes(head.len() as u32);
        let tail = spec_pack_payload(outputs.drop_first());
        assert(spec_pack_payload(outputs) == lb + head + tail);
        assert(lb.len() == 4);
        assert(data.skip(pos).len() == 4 + len + tail.len());
        assert(pos + 4 + len <= data.len());
        assert forall|i: int| 0 <= i < 4 implies data.subrange(pos, pos + 4)[i] == lb[i] by {
            assert(data.skip(pos)[i] == data[pos + i]);
            assert((lb + head + tail)[i] == lb[i]);
        }
        assert(data.subrange(pos, pos + 4) =~= lb);
        assert(spec_u32_from_le_bytes(data.subrange(pos, pos + 4)) == head.len() as u32);
        assert forall|i: int| 0 <= i < len implies data.subrange(pos + 4, pos + 4 + len)[i]
            == head[i] by {
            assert(data.skip(pos)[4 + i] == data[pos + 4 + i]);
            assert((lb + head + tail)[4 + i] == head[i]);
        }
        assert(data.subrange(pos + 4, pos + 4 + len) =~= head);
        assert forall|i: int| 0 <= i < tail.len() implies data.skip(pos + 4 + len)[i]
            == tail[i] by {
            assert(data.skip(pos)[4 + len + i] == data[pos + 4 + len + i]);
            assert((lb + head + tail)[4 + len + i] == tail[i]);
        }
        assert(data.skip(pos + 4 + len) =~= tail);
        lemma_unpack_payload(data, pos + 4 + len, outputs.drop_first());
        assert(seq![head] + outputs.drop_first() =~= outputs);
    }
}

/// What SHA-1 returns on the given bytes. The digest is a pure function of
/// its input, so it only carries a name here; nothing in this crate states
/// what the bits are.
pub uninterp spec fn sha1_of(data: Seq<u8>) -> Seq<u8>;

/// Relies on `sha1::Sha1` through the `Digest` trait of the `sha1` crate:
/// the digest is 20 bytes and depends on the input bytes alone.
#[verifier::external_body]
fn sha1_digest(data: &Vec<u8>) -> (r: Vec<u8>)
    ensures
        r@ == sha1_of(data@),
        r@.len() == 20,
{
    let mut h = sha1::Sha1::new();
    h.update(data.as_slice());
    h.finalize().to_vec()
}

/// The sixteen lowercase hexadecimal digits.
pub open spec fn spec_hex_digits() -> Seq<char> {
    seq!['0', '1', '2', '3', '4', '5', '6', '7', '8', '9', 'a', 'b', 'c', 'd', 'e', 'f']
}

pub open spec fn spec_hex_char(n: u8) -> char {
    spec_hex_digits()[n as int]
}

/// Lowercase hex of the bytes, two digits each, high nibble first.
pub open spec fn spec_hex_of(data: Seq<u8>) -> Seq<char>
    decreases data.len(),
{
    if data.len() == 0 {
        Seq::empty()
    } else {
        seq![spec_hex_char(data.first() / 16), spec_hex_char(data.first() % 16)] + spec_hex_of(
            data.drop_first(),
        )
    }
}

fn hex_char(n: u8) -> (c: char)
    requires
        n < 16,
    ensures
        c == spec_hex_char(n),
{
    match n {
        0 => '0',
        1 => '1',
        2 => '2',
        3 => '3',
        4 => '4',
        5 => '5',
        6 => '6',
        7 => '7',
        8 => '8',
        9 => '9',
        10 => 'a',
        11 => 'b',
        12 => 'c',
        13 => 'd',
        14 => 'e',
        _ => 'f',
    }
}

/// The lowercase hex rendering of a byte string.
#[verifier::loop_isolation(false)]
pub fn hex_string(data: &Vec<u8>) -> (r: String)
    ensures
        r@ == spec_hex_of(data@),
{
    let mut r = String::new();
    let mut i: usize = 0;
    proof {
        assert(data@.skip(0) =~= data@);
    }
    while i < data.len()
        invariant
            i <= data@.len(),
            spec_hex_of(data@) == r@ + spec_hex_of(data@.skip(i as int)),
        decreases data@.len() - i,
    {
        proof {
            assert(data@.skip(i as int).first() == data@[i as int]);
            assert(data@.skip(i as int).drop_first() =~= data@.skip(i + 1));
        }
        let b = data[i];
        crate::strutil::string_push(&mut r, hex_char(b / 16));
        crate::strutil::string_push(&mut r, hex_char(b % 16));
        proof {
            assert(spec_hex_of(data@) == r@ + spec_hex_of(data@.skip(i + 1)));
        }
        i = i + 1;
    }
    proof {
        assert(data@.skip(i as int) =~= Seq::<u8>::empty());
        assert(r@ + Seq::<char>::empty() =~= r@);
    }
    r
}

/// Each input in order, a zero byte after each.
pub open spec fn spec_zero_terminated(inputs: Seq<Seq<u8>>) -> Seq<u8>
    decreases inputs.len(),
{
    if inputs.len() == 0 {
        Seq::empty()
    } else {
        inputs.first() + seq![0u8] + spec_zero_terminated(inputs.drop_first())
    }
}

/// The bytes that the fingerprint hash runs over: the parameter string's
/// bytes, a zero byte, then every input with a zero byte after it.
pub open spec fn spec_hash_stream(params: Seq<u8>, inputs: Seq<Seq<u8>>) -> Seq<u8> {
    params + seq![0u8] + spec_zero_terminated(inputs)
}

/// The fingerprint of a parameter string and a list of input contents: the
/// lowercase hex of the SHA-1 digest over their zero-separated stream.
#[verifier::loop_isolation(false)]
pub fn generate_hash(params: &str, inputs: &Vec<Vec<u8>>) -> (r: String)
    ensures
        r@ == spec_hex_of(sha1_of(spec_hash_stream(params.spec_bytes(), inputs.deep_view()))),
{
    let ghost iv = inputs.deep_view();
    let mut buf: Vec<u8> = params.as_bytes_vec();
    buf.push(0);
    proof {
        assert(iv.skip(0) =~= iv);
        assert(buf@ =~= params.spec_bytes() + seq![0u8]);
        assert(spec_hash_stream(params.spec_bytes(), iv) == buf@ + spec_zero_terminated(iv));
    }
    let mut i: usize = 0;
    while i < inputs.len()
        invariant
            i <= inputs@.len(),
            spec_hash_stream(params.spec_bytes(), iv) == buf@ + spec_zero_terminated(
                iv.skip(i as int),
            ),
        decreases inputs@.len() - i,
    {
        proof {
            assert(iv.skip(i as int).first() == iv[i as int]);
            assert(iv.skip(i as int).drop_first() =~= iv.skip(i + 1));
            assert(iv[i as int] == inputs@[i as int]@);
        }
        let input: &Vec<u8> = &inputs[i];
        let ghost base = buf@;
        let mut j: usize = 0;
        while j < input.len()
            invariant
                j <= input@.len(),
                buf@ == base + input@.subrange(0, j as int),
            decreases input@.len() - j,
        {
            buf.push(input[j]);
            proof {
                assert(base + input@.subrange(0, j as int) + seq![input@[j as int]] =~= base
                    + input@.subrange(0, j + 1));
            }
            j = j + 1;
        }
        buf.push(0);
        proof {
            assert(input@.subrange(0, input@.len() as int) =~= input@);
            assert(buf@ =~= base + input@ + seq![0u8]);
            assert(spec_hash_stream(params.spec_bytes(), iv) == buf@ + spec_zero_terminated(
                iv.skip(i + 1),
            ));
        }
        i = i + 1;
    }
    proof {
        assert(iv.skip(i as int) =~= Seq::<Seq<u8>>::empty());
        assert(buf@ + Seq::<u8>::empty() =~= buf@);
    }
    let digest = sha1_digest(&buf);
    hex_string(&digest)
}

/// The filesystem-backed store of compiled outputs, addressed by
/// fingerprint. Only the naming of entry files lives here; reading and
/// writing them is the caller's input and output.
pub struct Cache {
    cache_dir: String,
}

impl Cache {
    /// The directory the cache is rooted at.
    pub closed spec fn dir(&self) -> Seq<char> {
        self.cache_dir@
    }

    /// A cache rooted at the current directory.
    pub fn new() -> (r: Cache)
        ensures
            r.dir() == "."@,
    {
        Cache { cache_dir: String::from_str(".") }
    }

    /// The name of the file that holds the entry of the given fingerprint:
    /// a dot, then the fingerprint hex.
    pub fn entry_file_name(&self, hash: &str) -> (r: String)
        ensures
            r@ == "."@ + hash@,
    {
        let mut r = String::from_str(".");
        r.append(hash);
        r
    }
}

/// What one cache lookup decided.
pub enum CacheOutcome {
    /// The entry was present and well formed: these are its outputs.
    Hit(Vec<Vec<u8>>),
    /// No entry, or one that does not parse for this output count: the
    /// caller must run the worker and pack what it produced.
    Miss,
}

/// Decides one lookup from the bytes of the entry file, if it could be read
/// at all. A hit returns exactly the outputs that were packed; everything
/// else, a missing file as much as a corrupt or truncated one, is a miss.
pub fn cache_lookup(entry: Option<Vec<u8>>, n_outputs: usize) -> (r: CacheOutcome)
    ensures
        (match entry {
            Option::Some(data) => match spec_unpack_entry(data@, n_outputs as int) {
                Option::Some(outs) => r matches CacheOutcome::Hit(v) && v.deep_view() == outs,
                Option::None => r is Miss,
            },
            Option::None => r is Miss,
        }),
{
    match entry {
        Option::Some(data) => match unpack_entry(&data, n_outputs) {
            Option::Some(outs) => CacheOutcome::Hit(outs),
            Option::None => CacheOutcome::Miss,
        },
        Option::None => CacheOutcome::Miss,
    }
}

/// Whether one parsed argument reaches the fingerprint: exactly the flags
/// and parameters of Compiler or Shared scope do. Preprocessor-only and
/// Ignore arguments, and the input and output files themselves, do not.
pub open spec fn spec_fingerprint_relevant(a: ArgView) -> bool {
    match a {
        ArgView::Flag { scope, .. } => scope == Scope::Compiler || scope == Scope::Shared,
        ArgView::Param { scope, .. } => scope == Scope::Compiler || scope == Scope::Shared,
        _ => false,
    }
}

/// The subsequence of fingerprint-relevant arguments, in order.
pub open spec fn spec_relevant_args(args: Seq<ArgView>) -> Seq<ArgView>
    decreases args.len(),
{
    if args.len() == 0 {
        Seq::empty()
    } else {
        let rest = spec_relevant_args(args.drop_first());
        if spec_fingerprint_relevant(args.first()) {
            seq![args.first()] + rest
        } else {
            rest
        }
    }
}

/// One argument as it stands in the normalized string: a slash, then the
/// flag's name, or the parameter's flag and value with the spacing erased.
pub open spec fn spec_serialize_arg(a: ArgView) -> Seq<char> {
    match a {
        ArgView::Flag { name, .. } => seq!['/'] + name,
        ArgView::Param { flag, value, .. } => seq!['/'] + flag + value,
        _ => Seq::empty(),
    }
}

pub open spec fn spec_serialize_args(args: Seq<ArgView>) -> Seq<char>
    decreases args.len(),
{
    if args.len() == 0 {
        Seq::empty()
    } else {
        spec_serialize_arg(args.first()) + spec_serialize_args(args.drop_first())
    }
}

/// The normalized argument string of the fingerprint: the relevant
/// arguments, serialized in order. By definition it is a function of the
/// relevant subsequence alone.
pub open spec fn spec_normalized_args(args: Seq<ArgView>) -> Seq<char> {
    spec_serialize_args(spec_relevant_args(args))
}

/// Serializes the Compiler- and Shared-scope arguments into the normalized
/// string that the fingerprint runs over.
#[verifier::loop_isolation(false)]
pub fn normalize_args(args: &Vec<Arg>) -> (r: String)
    ensures
        r@ == spec_normalized_args(args.deep_view()),
{
    let ghost dv = args.deep_view();
    let mut r = String::new();
    let mut i: usize = 0;
    proof {
        reveal_strlit("/");
        assert("/"@ =~= seq!['/']);
        assert(dv.skip(0) =~= dv);
        assert(dv.len() == args@.len());
        assert(r@ + spec_serialize_args(spec_relevant_args(dv)) =~= spec_serialize_args(
            spec_relevant_args(dv),
        ));
    }
    while i < args.len()
        invariant
            i <= args@.len(),
            spec_normalized_args(dv) == r@ + spec_serialize_args(
                spec_relevant_args(dv.skip(i as int)),
            ),
        decreases args@.len() - i,
    {
        proof {
            assert(dv.skip(i as int).first() == dv[i as int]);
            assert(dv.skip(i as int).drop_first() =~= dv.skip(i + 1));
            assert(dv[i as int] == args@[i as int]@);
        }
        let ghost prev = r@;
        let mut relevant = false;
        match &args[i] {
            Arg::Flag { scope, name } => {
                if *scope == Scope::Compiler || *scope == Scope::Shared {
                    relevant = true;
                    r.append("/");
                    r.append(name.as_str());
                }
            },
            Arg::Param { scope, flag, value, .. } => {
                if *scope == Scope::Compiler || *scope == Scope::Shared {
                    relevant = true;
                    r.append("/");
                    r.append(flag.as_str());
                    r.append(value.as_str());
                }
            },
            _ => {},
        }
        proof {
            let a = dv[i as int];
            let rel = spec_relevant_args(dv.skip(i as int));
            let rel1 = spec_relevant_args(dv.skip(i + 1));
            if relevant {
                assert(rel == seq![a] + rel1);
                assert(rel.first() == a);
                assert(rel.drop_first() =~= rel1);
                assert(spec_serialize_args(rel) == spec_serialize_arg(a) + spec_serialize_args(
                    rel1,
                ));
                assert(r@ =~= prev + spec_serialize_arg(a));
                assert(prev + (spec_serialize_arg(a) + spec_serialize_args(rel1)) =~= r@
                    + spec_serialize_args(rel1));
            } else {
                assert(rel == rel1);
            }
        }
        i = i + 1;
    }
    proof {
        assert(dv.skip(i as int) =~= Seq::<ArgView>::empty());
        assert(r@ + Seq::<char>::empty() =~= r@);
    }
    r
}

/// The fingerprint of one compile step: the normalized argument string, the
/// preprocessed source, the toolchain identity and the language code, in
/// this fixed order, each segment zero-terminated, digested with SHA-1 and
/// rendered as lowercase hex.
pub open spec fn spec_task_fingerprint(
    args: Seq<ArgView>,
    source: Seq<u8>,
    toolchain: Seq<char>,
    language: Seq<char>,
) -> Seq<char> {
    spec_hex_of(
        sha1_of(
            spec_hash_stream(
                encode_utf8(spec_normalized_args(args)),
                seq![source, encode_utf8(toolchain), encode_utf8(language)],
            ),
        ),
    )
}

/// Computes the fingerprint under which one compile step's outputs are
/// stored.
pub fn task_fingerprint(
    args: &Vec<Arg>,
    source: &Vec<u8>,
    toolchain: &str,
    language: &str,
) -> (r: String)
    ensures
        r@ == spec_task_fingerprint(args.deep_view(), source@, toolchain@, language@),
{
    let params = normalize_args(args);
    let mut inputs: Vec<Vec<u8>> = Vec::new();
    let mut sc: Vec<u8> = Vec::new();
    let mut j: usize = 0;
    while j < source.len()
        invariant
            j <= source@.len(),
            sc@ == source@.subrange(0, j as int),
        decreases source@.len() - j,
    {
        sc.push(source[j]);
        proof {
            assert(source@.subrange(0, j as int) + seq![source@[j as int]] =~= source@.subrange(
                0,
                j + 1,
            ));
        }
        j = j + 1;
    }
    proof {
        assert(sc@ =~= source@);
    }
    proof {
        assert(sc.deep_view() =~= source@);
    }
    inputs.push(sc);
    let tb = toolchain.as_bytes_vec();
    proof {
        assert(tb.deep_view() =~= toolchain.spec_bytes());
    }
    inputs.push(tb);
    let lb = language.as_bytes_vec();
    proof {
        assert(lb.deep_view() =~= language.spec_bytes());
    }
    inputs.push(lb);
    proof {
        assert(inputs.deep_view() =~= seq![
            source@,
            toolchain.spec_bytes(),
            language.spec_bytes(),
        ]);
    }
    generate_hash(params.as_str(), &inputs)
}

/// Two argument lists with the same Compiler- and Shared-scope arguments
/// fingerprint identically for the same preprocessed source, toolchain and
/// language: arguments of Preprocessor or Ignore scope have no bearing on
/// the fingerprint.
pub proof fn lemma_fingerprint_ignores_other_scopes(
    a: Seq<ArgView>,
    b: Seq<ArgView>,
    source: Seq<u8>,
    toolchain: Seq<char>,
    language: Seq<char>,
)
    requires
        spec_relevant_args(a) == spec_relevant_args(b),
    ensures
        spec_task_fingerprint(a, source, toolchain, language) == spec_task_fingerprint(
            b,
            source,
            toolchain,
            language,
        ),
{
}

/// One argument list has one normalized serialization: two runs agree.
pub proof fn lemma_normalized_args_deterministic(
    args: Seq<ArgView>,
    s1: Seq<char>,
    s2: Seq<char>,
)
    requires
        s1 == spec_normalized_args(args),
        s2 == spec_normalized_args(args),
    ensures
        s1 == s2,
{
}

} // verus!
