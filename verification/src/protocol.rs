use vstd::prelude::*;

use vstd::bytes::{
    lemma_auto_spec_u16_to_from_le_bytes, lemma_auto_spec_u32_to_from_le_bytes,
    spec_u16_from_le_bytes, spec_u16_to_le_bytes, spec_u32_from_le_bytes, spec_u32_to_le_bytes,
    u16_from_le_bytes, u16_to_le_bytes, u32_from_le_bytes, u32_to_le_bytes,
};

use crate::cache::{lemma_unpack_payload, spec_pack_payload, spec_unpack_outputs};

verus! {

/// One length-framed field of the job wire format: four little-endian
/// length bytes, then the bytes themselves.
pub open spec fn spec_block(b: Seq<u8>) -> Seq<u8> {
    spec_u32_to_le_bytes(b.len() as u32) + b
}

/// One compile job as a client sends it: the toolchain identifier, the
/// normalized argument string and the preprocessed source, each as bytes.
pub struct JobRequest {
    pub toolchain: Vec<u8>,
    pub args: Vec<u8>,
    pub source: Vec<u8>,
}

pub struct JobRequestView {
    pub toolchain: Seq<u8>,
    pub args: Seq<u8>,
    pub source: Seq<u8>,
}

impl View for JobRequest {
    type V = JobRequestView;

    open spec fn view(&self) -> JobRequestView {
        JobRequestView { toolchain: self.toolchain@, args: self.args@, source: self.source@ }
    }
}

/// What the builder answers: the compiler's exit status, its two streams,
/// and each requested output file as a sized blob.
pub struct JobResponse {
    pub status: u32,
    pub stdout: Vec<u8>,
    pub stderr: Vec<u8>,
    pub outputs: Vec<Vec<u8>>,
}

pub struct JobResponseView {
    pub status: u32,
    pub stdout: Seq<u8>,
    pub stderr: Seq<u8>,
    pub outputs: Seq<Seq<u8>>,
}

impl View for JobResponse {
    type V = JobResponseView;

    open spec fn view(&self) -> JobResponseView {
        JobResponseView {
            status: self.status,
            stdout: self.stdout@,
            stderr: self.stderr@,
            outputs: self.outputs.deep_view(),
        }
    }
}

/// The bytes of one request: its three fields framed in order.
pub open spec fn spec_encode_request(r: JobRequestView) -> Seq<u8> {
    spec_block(r.toolchain) + spec_block(r.args) + spec_block(r.source)
}

/// The bytes of one response: the status, the framed streams, the output
/// count as two little-endian bytes, then the outputs framed in order.
pub open spec fn spec_encode_response(r: JobResponseView) -> Seq<u8> {
    spec_u32_to_le_bytes(r.status) + spec_block(r.stdout) + spec_block(r.stderr)
        + spec_u16_to_le_bytes(r.outputs.len() as u16) + spec_pack_payload(r.outputs)
}

/// One field read at `pos`: the bytes and the position after them, or
/// `None` when the data runs short.
pub open spec fn spec_read_block(data: Seq<u8>, pos: int) -> Option<(Seq<u8>, int)> {
    if pos + 4 > data.len() {
        Option::None
    } else {
        let l = spec_u32_from_le_bytes(data.subrange(pos, pos + 4)) as int;
        if pos + 4 + l > data.len() {
            Option::None
        } else {
            Option::Some((data.subrange(pos + 4, pos + 4 + l), pos + 4 + l))
        }
    }
}

/// A request stream parses when its three fields fill the data exactly;
/// anything truncated or with trailing bytes is malformed and the
/// connection is to be dropped.
pub open spec fn spec_decode_request(data: Seq<u8>) -> Option<JobRequestView> {
    match spec_read_block(data, 0) {
        Option::None => Option::None,
        Option::Some((tc, p1)) => match spec_read_block(data, p1) {
            Option::None => Option::None,
            Option::Some((args, p2)) => match spec_read_block(data, p2) {
                Option::None => Option::None,
                Option::Some((src, p3)) => if p3 == data.len() {
                    Option::Some(JobRequestView { toolchain: tc, args, source: src })
                } else {
                    Option::None
                },
            },
        },
    }
}

/// A response stream parses when the status, both streams and the declared
/// number of outputs can be read; bytes after the last output are not
/// examined, as with a cache entry.
pub open spec fn spec_decode_response(data: Seq<u8>) -> Option<JobResponseView> {
    if data.len() < 4 {
        Option::None
    } else {
        let status = spec_u32_from_le_bytes(data.subrange(0, 4));
        match spec_read_block(data, 4) {
            Option::None => Option::None,
            Option::Some((out, p1)) => match spec_read_block(data, p1) {
                Option::None => Option::None,
                Option::Some((err, p2)) => if p2 + 2 > data.len() {
                    Option::None
                } else {
                    let n = spec_u16_from_le_bytes(data.subrange(p2, p2 + 2)) as int;
                    match spec_unpack_outputs(data, p2 + 2, n) {
                        Option::None => Option::None,
                        Option::Some(outputs) => Option::Some(
                            JobResponseView { status, stdout: out, stderr: err, outputs },
                        ),
                    }
                },
            },
        }
    }
}

/// Appends one framed field.
#[verifier::loop_isolation(false)]
fn push_block(buf: &mut Vec<u8>, b: &Vec<u8>)
    requires
        b@.len() <= 0xFFFFFFFF,
    ensures
        final(buf)@ == old(buf)@ + spec_block(b@),
{
    let ghost base = buf@;
    let len32: u32 = b.len() as u32;
    let mut lb = u32_to_le_bytes(len32);
    buf.append(&mut lb);
    let ghost mid = buf@;
    let mut j: usize = 0;
    while j < b.len()
        invariant
            j <= b@.len(),
            buf@ == mid + b@.subrange(0, j as int),
        decreases b@.len() - j,
    {
        buf.push(b[j]);
        proof {
            assert(mid + b@.subrange(0, j as int) + seq![b@[j as int]] =~= mid + b@.subrange(
                0,
                j + 1,
            ));
        }
        j = j + 1;
    }
    proof {
        assert(b@.subrange(0, b@.len() as int) =~= b@);
        assert(buf@ =~= base + spec_block(b@));
    }
}

/// Reads one framed field at `pos`.
#[verifier::loop_isolation(false)]
fn read_block(data: &Vec<u8>, pos: usize) -> (r: Option<(Vec<u8>, usize)>)
    requires
        pos <= data@.len(),
    ensures
        (match r {
            Option::Some(p) => spec_read_block(data@, pos as int) == Option::Some(
                (p.0@, p.1 as int),
            ),
            Option::None => spec_read_block(data@, pos as int) is None,
        }),
{
    if data.len() - pos < 4 {
        return Option::None;
    }
    let mut b4: Vec<u8> = Vec::new();
    b4.push(data[pos]);
    b4.push(data[pos + 1]);
    b4.push(data[pos + 2]);
    b4.push(data[pos + 3]);
    proof {
        assert(b4@ =~= data@.subrange(pos as int, pos + 4));
    }
    let len = u32_from_le_bytes(b4.as_slice()) as usize;
    if data.len() - (pos + 4) < len {
        return Option::None;
    }
    let mut out: Vec<u8> = Vec::new();
    let mut j: usize = 0;
    while j < len
        invariant
            j <= len,
            pos + 4 + len <= data@.len(),
            out@ == data@.subrange(pos + 4, pos + 4 + j),
            len == spec_u32_from_le_bytes(data@.subrange(pos as int, pos + 4)) as int,
        decreases len - j,
    {
        out.push(data[pos + 4 + j]);
        proof {
            assert(data@.subrange(pos + 4, pos + 4 + j) + seq![data@[pos + 4 + j]] =~= data@
                .subrange(pos + 4, pos + 4 + j + 1));
        }
        j = j + 1;
    }
    Option::Some((out, pos + 4 + len))
}

/// Frames one request for the wire.
pub fn encode_request(r: &JobRequest) -> (buf: Vec<u8>)
    requires
        r.toolchain@.len() <= 0xFFFFFFFF,
        r.args@.len() <= 0xFFFFFFFF,
        r.source@.len() <= 0xFFFFFFFF,
    ensures
        buf@ == spec_encode_request(r@),
{
    let mut buf: Vec<u8> = Vec::new();
    push_block(&mut buf, &r.toolchain);
    push_block(&mut buf, &r.args);
    push_block(&mut buf, &r.source);
    proof {
        assert(buf@ =~= spec_encode_request(r@));
    }
    buf
}

/// Parses one request from the bytes of a connection.
pub fn decode_request(data: &Vec<u8>) -> (r: Option<JobRequest>)
    ensures
        (match r {
            Option::Some(q) => spec_decode_request(data@) == Option::Some(q@),
            Option::None => spec_decode_request(data@) is None,
        }),
{
    let b1 = match read_block(data, 0) {
        Option::Some(p) => p,
        Option::None => {
            return Option::None;
        },
    };
    let b2 = match read_block(data, b1.1) {
        Option::Some(p) => p,
        Option::None => {
            return Option::None;
        },
    };
    let b3 = match read_block(data, b2.1) {
        Option::Some(p) => p,
        Option::None => {
            return Option::None;
        },
    };
    if b3.1 != data.len() {
        return Option::None;
    }
    Option::Some(JobRequest { toolchain: b1.0, args: b2.0, source: b3.0 })
}

/// Frames one response for the wire.
pub fn encode_response(r: &JobResponse) -> (buf: Vec<u8>)
    requires
        r.stdout@.len() <= 0xFFFFFFFF,
        r.stderr@.len() <= 0xFFFFFFFF,
        r.outputs.deep_view().len() <= 0xFFFF,
        forall|i: int|
            0 <= i < r.outputs.deep_view().len() ==> (#[trigger] r.outputs.deep_view()[i]).len()
                <= 0xFFFFFFFF,
    ensures
        buf@ == spec_encode_response(r@),
{
    let ghost ov = r.outputs.deep_view();
    proof {
        assert(ov.len() == r.outputs@.len());
    }
    let mut buf: Vec<u8> = Vec::new();
    let mut sb = u32_to_le_bytes(r.status);
    buf.append(&mut sb);
    push_block(&mut buf, &r.stdout);
    push_block(&mut buf, &r.stderr);
    let count: u16 = r.outputs.len() as u16;
    let mut cb = u16_to_le_bytes(count);
    buf.append(&mut cb);
    proof {
        assert(ov.skip(0) =~= ov);
        assert(spec_encode_response(r@) == buf@ + spec_pack_payload(ov));
    }
    let mut i: usize = 0;
    #[verifier::loop_isolation(false)]
    while i < r.outputs.len()
        invariant
            i <= r.outputs@.len(),
            spec_encode_response(r@) == buf@ + spec_pack_payload(ov.skip(i as int)),
        decreases r.outputs@.len() - i,
    {
        proof {
            assert(ov.skip(i as int).first() == ov[i as int]);
            assert(ov.skip(i as int).drop_first() =~= ov.skip(i + 1));
            assert(ov[i as int] == r.outputs@[i as int]@);
        }
        push_block(&mut buf, &r.outputs[i]);
        proof {
            assert(spec_encode_response(r@) == buf@ + spec_pack_payload(ov.skip(i + 1)));
        }
        i = i + 1;
    }
    proof {
        assert(ov.skip(i as int) =~= Seq::<Seq<u8>>::empty());
        assert(buf@ + Seq::<u8>::empty() =~= buf@);
    }
    buf
}

/// Parses one response from the bytes of a connection.
#[verifier::loop_isolation(false)]
pub fn decode_response(data: &Vec<u8>) -> (r: Option<JobResponse>)
    ensures
        (match r {
            Option::Some(q) => spec_decode_response(data@) == Option::Some(q@),
            Option::None => spec_decode_response(data@) is None,
        }),
{
    if data.len() < 4 {
        return Option::None;
    }
    let mut b4: Vec<u8> = Vec::new();
    b4.push(data[0]);
    b4.push(data[1]);
    b4.push(data[2]);
    b4.push(data[3]);
    proof {
        assert(b4@ =~= data@.subrange(0, 4));
    }
    let status = u32_from_le_bytes(b4.as_slice());
    let b1 = match read_block(data, 4) {
        Option::Some(p) => p,
        Option::None => {
            return Option::None;
        },
    };
    let b2 = match read_block(data, b1.1) {
        Option::Some(p) => p,
        Option::None => {
            return Option::None;
        },
    };
    let p2 = b2.1;
    if data.len() - p2 < 2 {
        return Option::None;
    }
    let mut c2: Vec<u8> = Vec::new();
    c2.push(data[p2]);
    c2.push(data[p2 + 1]);
    proof {
        assert(c2@ =~= data@.subrange(p2 as int, p2 + 2));
    }
    let n = u16_from_le_bytes(c2.as_slice()) as usize;
    let mut outputs: Vec<Vec<u8>> = Vec::new();
    let mut pos: usize = p2 + 2;
    let mut k: usize = 0;
    proof {
        assert(outputs.deep_view() =~= Seq::<Seq<u8>>::empty());
        assert(outputs.deep_view() + (match spec_unpack_outputs(data@, p2 + 2, n as int) {
            Option::Some(rest) => rest,
            Option::None => Seq::<Seq<u8>>::empty(),
        }) =~= (match spec_unpack_outputs(data@, p2 + 2, n as int) {
            Option::Some(rest) => rest,
            Option::None => Seq::<Seq<u8>>::empty(),
        }));
    }
    while k < n
        invariant
            k <= n,
            p2 + 2 <= pos <= data@.len(),
            spec_unpack_outputs(data@, p2 + 2, n as int) == (match spec_unpack_outputs(
                data@,
                pos as int,
                n - k,
            ) {
                Option::Some(rest) => Option::Some(outputs.deep_view() + rest),
                Option::None => Option::<Seq<Seq<u8>>>::None,
            }),
        decreases n - k,
    {
        let block = match read_block(data, pos) {
            Option::Some(p) => p,
            Option::None => {
                return Option::None;
            },
        };
        let ghost prev = outputs.deep_view();
        let ghost outv = block.0@;
        proof {
            assert(block.0.deep_view() =~= outv);
        }
        let new_pos = block.1;
        outputs.push(block.0);
        proof {
            assert(outputs.deep_view() =~= prev + seq![outv]);
            let rest_k = spec_unpack_outputs(data@, pos as int, n - k);
            let rest_k1 = spec_unpack_outputs(data@, new_pos as int, n - k - 1);
            match rest_k1 {
                Option::Some(rs) => {
                    assert(rest_k == Option::Some(seq![outv] + rs));
                    assert(prev + (seq![outv] + rs) =~= outputs.deep_view() + rs);
                },
                Option::None => {},
            }
        }
        pos = new_pos;
        k = k + 1;
    }
    proof {
        assert(spec_unpack_outputs(data@, pos as int, 0) == Option::Some(Seq::<Seq<u8>>::empty()));
        assert(outputs.deep_view() + Seq::<Seq<u8>>::empty() =~= outputs.deep_view());
    }
    Option::Some(JobResponse { status, stdout: b1.0, stderr: b2.0, outputs })
}

/// Reading one framed field back where the data holds exactly that frame.
proof fn lemma_read_block_at(data: Seq<u8>, pos: int, b: Seq<u8>)
    requires
        0 <= pos,
        b.len() <= 0xFFFFFFFF,
        pos + 4 + b.len() <= data.len(),
        data.subrange(pos, pos + 4 + b.len()) == spec_block(b),
    ensures
        spec_read_block(data, pos) == Option::Some((b, pos + 4 + b.len())),
{
    lemma_auto_spec_u32_to_from_le_bytes();
    let lb = spec_u32_to_le_bytes(b.len() as u32);
    let frame = data.subrange(pos, pos + 4 + b.len());
    assert(lb.len() == 4);
    assert forall|i: int| 0 <= i < 4 implies data.subrange(pos, pos + 4)[i] == lb[i] by {
        assert(frame[i] == data[pos + i]);
        assert((lb + b)[i] == lb[i]);
    }
    assert(data.subrange(pos, pos + 4) =~= lb);
    assert(spec_u32_from_le_bytes(data.subrange(pos, pos + 4)) == b.len() as u32);
    assert forall|i: int| 0 <= i < b.len() implies data.subrange(
        pos + 4,
        pos + 4 + b.len(),
    )[i] == b[i] by {
        assert(frame[4 + i] == data[pos + 4 + i]);
        assert((lb + b)[4 + i] == b[i]);
    }
    assert(data.subrange(pos + 4, pos + 4 + b.len() as int) =~= b);
}

/// A framed request reads back as itself: the fields come out byte for
/// byte as they went in.
pub proof fn lemma_request_roundtrip(r: JobRequestView)
    requires
        r.toolchain.len() <= 0xFFFFFFFF,
        r.args.len() <= 0xFFFFFFFF,
        r.source.len() <= 0xFFFFFFFF,
    ensures
        spec_decode_request(spec_encode_request(r)) == Option::Some(r),
{
    lemma_auto_spec_u32_to_from_le_bytes();
    let data = spec_encode_request(r);
    let n1 = 4 + r.toolchain.len() as int;
    let n2 = n1 + 4 + r.args.len() as int;
    let n3 = n2 + 4 + r.source.len() as int;
    assert(data.len() == n3);
    assert(data.subrange(0, n1) =~= spec_block(r.toolchain));
    lemma_read_block_at(data, 0, r.toolchain);
    assert(data.subrange(n1, n2) =~= spec_block(r.args));
    lemma_read_block_at(data, n1, r.args);
    assert(data.subrange(n2, n3) =~= spec_block(r.source));
    lemma_read_block_at(data, n2, r.source);
}

/// A framed response reads back as itself, outputs in order and byte for
/// byte.
pub proof fn lemma_response_roundtrip(r: JobResponseView)
    requires
        r.stdout.len() <= 0xFFFFFFFF,
        r.stderr.len() <= 0xFFFFFFFF,
        r.outputs.len() <= 0xFFFF,
        forall|i: int| 0 <= i < r.outputs.len() ==> (#[trigger] r.outputs[i]).len() <= 0xFFFFFFFF,
    ensures
        spec_decode_response(spec_encode_response(r)) == Option::Some(r),
{
    lemma_auto_spec_u16_to_from_le_bytes();
    lemma_auto_spec_u32_to_from_le_bytes();
    let data = spec_encode_response(r);
    let p1 = 4 + 4 + r.stdout.len() as int;
    let p2 = p1 + 4 + r.stderr.len() as int;
    assert(data.subrange(0, 4) =~= spec_u32_to_le_bytes(r.status));
    assert(data.subrange(4, p1) =~= spec_block(r.stdout));
    lemma_read_block_at(data, 4, r.stdout);
    assert(data.subrange(p1, p2) =~= spec_block(r.stderr));
    lemma_read_block_at(data, p1, r.stderr);
    assert(data.subrange(p2, p2 + 2) =~= spec_u16_to_le_bytes(r.outputs.len() as u16));
    assert(data.skip(p2 + 2) =~= spec_pack_payload(r.outputs));
    lemma_unpack_payload(data, p2 + 2, r.outputs);
}

} // verus!
