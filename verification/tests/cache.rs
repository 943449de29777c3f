use octobuild::cache::{
    cache_lookup, generate_hash, hex_string, normalize_args, pack_entry, task_fingerprint,
    unpack_entry, Cache, CacheOutcome,
};
use octobuild::compiler::{Arg, Scope};

#[test]
fn pack_unpack_round_trip() {
    let outputs = vec![b"object bytes".to_vec(), b"side artifact".to_vec()];
    let entry = pack_entry(&outputs);
    assert_eq!(unpack_entry(&entry, 2), Some(outputs));
}

#[test]
fn zero_length_output_round_trips() {
    let outputs = vec![Vec::new(), b"x".to_vec(), Vec::new()];
    let entry = pack_entry(&outputs);
    assert_eq!(unpack_entry(&entry, 3), Some(outputs));
}

#[test]
fn empty_entry_is_valid() {
    let outputs: Vec<Vec<u8>> = Vec::new();
    let entry = pack_entry(&outputs);
    assert_eq!(entry.len(), 8);
    assert_eq!(unpack_entry(&entry, 0), Some(Vec::new()));
}

#[test]
fn truncated_entry_is_a_miss() {
    let outputs = vec![b"abc".to_vec(), b"defg".to_vec()];
    let mut entry = pack_entry(&outputs);
    entry.pop();
    assert_eq!(unpack_entry(&entry, 2), None);
    assert!(matches!(cache_lookup(Some(entry), 2), CacheOutcome::Miss));
}

#[test]
fn wrong_magic_is_a_miss() {
    let outputs = vec![b"abc".to_vec()];
    let mut entry = pack_entry(&outputs);
    entry[0] ^= 0xff;
    assert_eq!(unpack_entry(&entry, 1), None);
}

#[test]
fn wrong_count_is_a_miss() {
    let outputs = vec![b"abc".to_vec()];
    let entry = pack_entry(&outputs);
    assert_eq!(unpack_entry(&entry, 2), None);
}

#[test]
fn short_entry_is_a_miss() {
    assert_eq!(unpack_entry(&b"OBCF".to_vec(), 0), None);
    assert_eq!(unpack_entry(&Vec::new(), 0), None);
}

#[test]
fn missing_entry_is_a_miss() {
    assert!(matches!(cache_lookup(None, 1), CacheOutcome::Miss));
}

#[test]
fn cache_hit_round_trip() {
    // two lookups of the same key against an in-memory stand-in for the
    // entry file: the worker runs once, the second call sees its outputs
    let mut store: Option<Vec<u8>> = None;
    let mut worker_runs = 0;
    let mut observed: Vec<Vec<u8>> = Vec::new();
    for _ in 0..2 {
        let key = generate_hash("key material", &vec![b"preprocessed source".to_vec()]);
        let _entry_name = Cache::new().entry_file_name(&key);
        match cache_lookup(store.clone(), 1) {
            CacheOutcome::Hit(outs) => {
                observed = outs;
            }
            CacheOutcome::Miss => {
                worker_runs += 1;
                let produced = vec![b"object bytes".to_vec()];
                store = Some(pack_entry(&produced));
                observed = produced;
            }
        }
    }
    assert_eq!(worker_runs, 1);
    assert_eq!(observed, vec![b"object bytes".to_vec()]);
}

#[test]
fn generate_hash_known_answer() {
    // SHA-1 of the stream b"abc\x00", in lowercase hex
    assert_eq!(generate_hash("abc", &Vec::new()), "686483805ac47ca14e03514f7481a7973b401762");
}

#[test]
fn generate_hash_separates_inputs() {
    // SHA-1 of the stream b"p\x00in1\x00\x00"
    let inputs = vec![b"in1".to_vec(), Vec::new()];
    assert_eq!(generate_hash("p", &inputs), "b8249458c25dc8f267d0ef1a2fb25b137c42ac55");
}

#[test]
fn hex_rendering() {
    assert_eq!(hex_string(&vec![0x00, 0xff, 0x1a]), "00ff1a");
    assert_eq!(hex_string(&Vec::new()), "");
}

#[test]
fn entry_file_names() {
    let cache = Cache::new();
    assert_eq!(cache.entry_file_name("abc123"), ".abc123");
}

#[test]
fn normalized_form_drops_other_scopes() {
    let args = vec![
        Arg::param(Scope::Shared, "D", "TEST", false),
        Arg::flag(Scope::Ignore, "c"),
        Arg::param(Scope::Preprocessor, "I", "include", true),
        Arg::flag(Scope::Shared, "arch:AVX"),
    ];
    assert_eq!(normalize_args(&args), "/DTEST/arch:AVX");
}

#[test]
fn normalized_form_erases_spacing() {
    let joined = vec![Arg::param(Scope::Shared, "D", "TEST2", false)];
    let spaced = vec![Arg::param(Scope::Shared, "D", "TEST2", true)];
    assert_eq!(normalize_args(&joined), normalize_args(&spaced));
}

#[test]
fn fingerprint_ignores_preprocessor_and_ignore_scope() {
    let base = vec![Arg::param(Scope::Shared, "D", "TEST", false)];
    let noisy = vec![
        Arg::flag(Scope::Ignore, "c"),
        Arg::param(Scope::Shared, "D", "TEST", false),
        Arg::param(Scope::Preprocessor, "I", "include", false),
    ];
    let source = b"int main() { return 0; }".to_vec();
    let a = task_fingerprint(&base, &source, "msvc-19", "P");
    let b = task_fingerprint(&noisy, &source, "msvc-19", "P");
    assert_eq!(a, b);
}

#[test]
fn fingerprint_sees_shared_flags() {
    let one = vec![Arg::param(Scope::Shared, "D", "ONE", false)];
    let two = vec![Arg::param(Scope::Shared, "D", "TWO", false)];
    let source = b"src".to_vec();
    assert_ne!(
        task_fingerprint(&one, &source, "msvc-19", "P"),
        task_fingerprint(&two, &source, "msvc-19", "P")
    );
}

#[test]
fn fingerprint_sees_source_and_language() {
    let args = vec![Arg::param(Scope::Shared, "D", "TEST", false)];
    let a = task_fingerprint(&args, &b"one".to_vec(), "msvc-19", "P");
    let b = task_fingerprint(&args, &b"two".to_vec(), "msvc-19", "P");
    let c = task_fingerprint(&args, &b"one".to_vec(), "msvc-19", "C");
    assert_ne!(a, b);
    assert_ne!(a, c);
}
