use octobuild::protocol::{
    decode_request, decode_response, encode_request, encode_response, JobRequest, JobResponse,
};

#[test]
fn request_round_trip() {
    let req = JobRequest {
        toolchain: b"msvc-19".to_vec(),
        args: b"/DTEST/arch:AVX".to_vec(),
        source: b"int main() { return 0; }".to_vec(),
    };
    let wire = encode_request(&req);
    let back = decode_request(&wire).unwrap();
    assert_eq!(back.toolchain, req.toolchain);
    assert_eq!(back.args, req.args);
    assert_eq!(back.source, req.source);
}

#[test]
fn request_layout() {
    let req = JobRequest {
        toolchain: b"tc".to_vec(),
        args: Vec::new(),
        source: b"s".to_vec(),
    };
    let wire = encode_request(&req);
    assert_eq!(
        wire,
        vec![2, 0, 0, 0, b't', b'c', 0, 0, 0, 0, 1, 0, 0, 0, b's']
    );
}

#[test]
fn truncated_request_is_rejected() {
    let req = JobRequest {
        toolchain: b"tc".to_vec(),
        args: b"a".to_vec(),
        source: b"src".to_vec(),
    };
    let mut wire = encode_request(&req);
    wire.pop();
    assert!(decode_request(&wire).is_none());
}

#[test]
fn trailing_request_bytes_are_rejected() {
    let req = JobRequest {
        toolchain: b"tc".to_vec(),
        args: b"a".to_vec(),
        source: b"src".to_vec(),
    };
    let mut wire = encode_request(&req);
    wire.push(0);
    assert!(decode_request(&wire).is_none());
}

#[test]
fn response_round_trip() {
    let resp = JobResponse {
        status: 0,
        stdout: b"compiled fine".to_vec(),
        stderr: Vec::new(),
        outputs: vec![b"object".to_vec(), Vec::new()],
    };
    let wire = encode_response(&resp);
    let back = decode_response(&wire).unwrap();
    assert_eq!(back.status, 0);
    assert_eq!(back.stdout, resp.stdout);
    assert_eq!(back.stderr, resp.stderr);
    assert_eq!(back.outputs, resp.outputs);
}

#[test]
fn nonzero_status_round_trips_without_outputs() {
    let resp = JobResponse {
        status: 2,
        stdout: Vec::new(),
        stderr: b"error C2143".to_vec(),
        outputs: Vec::new(),
    };
    let wire = encode_response(&resp);
    let back = decode_response(&wire).unwrap();
    assert_eq!(back.status, 2);
    assert_eq!(back.stderr, resp.stderr);
    assert!(back.outputs.is_empty());
}

#[test]
fn truncated_response_is_rejected() {
    let resp = JobResponse {
        status: 0,
        stdout: Vec::new(),
        stderr: Vec::new(),
        outputs: vec![b"object".to_vec()],
    };
    let mut wire = encode_response(&resp);
    wire.pop();
    assert!(decode_response(&wire).is_none());
}
