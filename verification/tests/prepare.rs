use octobuild::compiler::{Arg, CommandInfo, InputKind, OutputKind, PCHUsage, PrepareError, Scope};
use octobuild::prepare::{
    create_tasks, detect_language, get_output_object, has_param_prefix, is_spaceable_param,
    parse_arguments,
};

fn tokens(line: &str) -> Vec<String> {
    line.split(' ').map(|x| x.to_string()).collect()
}

fn command(dir: &str) -> CommandInfo {
    CommandInfo { current_dir: dir.to_string() }
}

#[test]
fn test_parse_argument() {
    let args: Vec<String> = tokens(
        "/TP /c /Yusample.h /Fpsample.h.pch /Fosample.cpp.o /DTEST /D TEST2 /arch:AVX /fsanitize=address sample.cpp",
    );
    assert_eq!(
        parse_arguments(&args).unwrap(),
        [
            Arg::param(Scope::Ignore, "T", "P", false),
            Arg::flag(Scope::Ignore, "c"),
            Arg::input(InputKind::Marker, "Yu", "sample.h"),
            Arg::input(InputKind::Precompiled, "Fp", "sample.h.pch"),
            Arg::output(OutputKind::Object, "Fo", "sample.cpp.o"),
            Arg::param(Scope::Shared, "D", "TEST", false),
            Arg::param(Scope::Shared, "D", "TEST2", true),
            Arg::flag(Scope::Shared, "arch:AVX"),
            Arg::flag(Scope::Shared, "fsanitize=address"),
            Arg::input(InputKind::Source, "", "sample.cpp")
        ]
    )
}

#[test]
fn parse_is_deterministic() {
    let args = tokens("/TP /c /DTEST /Fosample.cpp.o sample.cpp");
    assert_eq!(parse_arguments(&args).unwrap(), parse_arguments(&args).unwrap());
}

#[test]
fn spaced_define() {
    let args = tokens("/D TEST2 sample.cpp");
    let parsed = parse_arguments(&args).unwrap();
    assert_eq!(parsed[0], Arg::param(Scope::Shared, "D", "TEST2", true));
}

#[test]
fn joined_define() {
    let args = tokens("/DTEST sample.cpp");
    let parsed = parse_arguments(&args).unwrap();
    assert_eq!(parsed[0], Arg::param(Scope::Shared, "D", "TEST", false));
}

#[test]
fn unknown_flag_error() {
    let args = tokens("/Qbogus sample.cpp");
    let errors = parse_arguments(&args).unwrap_err();
    assert_eq!(errors, vec!["/Qbogus".to_string()]);
    match create_tasks(command("/work"), &args, false, false) {
        Err(PrepareError::UnknownArguments(list)) => {
            assert_eq!(list, vec!["/Qbogus".to_string()]);
        }
        other => panic!("expected unknown-argument error, got {:?}", other.err()),
    }
}

#[test]
fn trailing_define_reports_error() {
    let args = tokens("sample.cpp /D");
    let errors = parse_arguments(&args).unwrap_err();
    assert_eq!(errors, vec!["/D".to_string()]);
}

#[test]
fn trailing_include_reports_error() {
    let args = tokens("sample.cpp /I");
    let errors = parse_arguments(&args).unwrap_err();
    assert_eq!(errors, vec!["/I".to_string()]);
}

#[test]
fn define_followed_by_flag_reports_error() {
    // the would-be value is consumed together with the broken flag
    let args = tokens("/D /c sample.cpp");
    let errors = parse_arguments(&args).unwrap_err();
    assert_eq!(errors, vec!["/D".to_string()]);
}

#[test]
fn minimal_compile() {
    let args = tokens("/TP /c /Fosample.cpp.o sample.cpp");
    let tasks = create_tasks(command("/work"), &args, false, false).unwrap();
    assert_eq!(tasks.len(), 1);
    assert_eq!(tasks[0].language, "P");
    assert_eq!(tasks[0].input_source, "/work/sample.cpp");
    assert_eq!(tasks[0].output_object, "/work/sample.cpp.o");
    assert!(matches!(tasks[0].shared.pch_usage, PCHUsage::Unused));
}

#[test]
fn pch_production() {
    let args = tokens("/Ycsample.h /Fpsample.h.pch /c sample.cpp");
    let tasks = create_tasks(command("/work"), &args, false, false).unwrap();
    assert_eq!(tasks.len(), 1);
    match &tasks[0].shared.pch_usage {
        PCHUsage::Out(pch) => {
            assert_eq!(pch.path, "sample.h.pch");
            assert_eq!(pch.path_abs, "/work/sample.h.pch");
            assert_eq!(pch.marker.as_deref(), Some("sample.h"));
        }
        other => panic!("expected a produced PCH, got {:?}", other),
    }
}

#[test]
fn pch_consumption_with_implicit_path() {
    let args = tokens("/Yusample.h /c sample.cpp");
    let tasks = create_tasks(command("/work"), &args, false, false).unwrap();
    assert_eq!(tasks.len(), 1);
    match &tasks[0].shared.pch_usage {
        PCHUsage::In(pch) => {
            assert_eq!(pch.path, "sample.pch");
            assert_eq!(pch.path_abs, "/work/sample.pch");
            assert_eq!(pch.marker.as_deref(), Some("sample.h"));
        }
        other => panic!("expected a consumed PCH, got {:?}", other),
    }
}

#[test]
fn full_fixture_tasks() {
    let args = tokens(
        "/TP /c /Yusample.h /Fpsample.h.pch /Fosample.cpp.o /DTEST /D TEST2 /arch:AVX /fsanitize=address sample.cpp",
    );
    let tasks = create_tasks(command("/work"), &args, false, false).unwrap();
    assert_eq!(tasks.len(), 1);
    assert_eq!(tasks[0].language, "P");
    assert_eq!(tasks[0].shared.args.len(), 10);
}

#[test]
fn missing_source_reports_error() {
    let args = tokens("/TP /c");
    assert!(matches!(
        create_tasks(command("/work"), &args, false, false),
        Err(PrepareError::NoSourceFile)
    ));
}

#[test]
fn too_many_output_objects_reports_error() {
    let args = tokens("/Foa.o /Fob.o sample.cpp");
    assert!(matches!(
        create_tasks(command("/work"), &args, false, false),
        Err(PrepareError::TooManyOutputObjects)
    ));
}

#[test]
fn too_many_pch_markers_reports_error() {
    let args = tokens("/Yca.h /Yub.h sample.cpp");
    assert!(matches!(
        create_tasks(command("/work"), &args, false, false),
        Err(PrepareError::TooManyPrecompiledMarkers)
    ));
}

#[test]
fn too_many_precompiled_files_reports_error() {
    let args = tokens("/Fpa.pch /Fpb.pch /Yua.h sample.cpp");
    assert!(matches!(
        create_tasks(command("/work"), &args, false, false),
        Err(PrepareError::TooManyPrecompiledFiles)
    ));
}

#[test]
fn too_many_language_params_reports_error() {
    let args = tokens("/TP /TC sample.cpp");
    assert!(matches!(
        create_tasks(command("/work"), &args, false, false),
        Err(PrepareError::TooManyLanguageParams)
    ));
}

#[test]
fn unknown_language_reports_error() {
    let args = tokens("/c sample.bin");
    match create_tasks(command("/work"), &args, false, false) {
        Err(PrepareError::UnknownLanguage(src)) => assert_eq!(src, "/work/sample.bin"),
        other => panic!("expected an unknown-language error, got {:?}", other.err()),
    }
}

#[test]
fn language_from_extension() {
    assert_eq!(detect_language("/work/a.cpp").as_deref(), Some("P"));
    assert_eq!(detect_language("/work/a.CC").as_deref(), Some("P"));
    assert_eq!(detect_language("/work/a.c").as_deref(), Some("C"));
    assert_eq!(detect_language("/work/a.C").as_deref(), Some("C"));
    assert_eq!(detect_language("/work/a.rs"), None);
    assert_eq!(detect_language("/work/noext"), None);
}

#[test]
fn output_object_defaults_to_source_with_obj() {
    let r = get_output_object("/work/sample.cpp", &None, false).unwrap();
    assert_eq!(r, "/work/sample.obj");
}

#[test]
fn output_object_into_directory() {
    let out = Some("/out".to_string());
    let r = get_output_object("/work/sample.cpp", &out, true).unwrap();
    assert_eq!(r, "/out/sample.obj");
}

#[test]
fn output_object_file_kept() {
    let out = Some("/out/exact.o".to_string());
    let r = get_output_object("/work/sample.cpp", &out, false).unwrap();
    assert_eq!(r, "/out/exact.o");
}

#[test]
fn multiple_sources_share_arguments() {
    let args = tokens("/TP /c one.cpp two.cpp");
    let tasks = create_tasks(command("/work"), &args, true, false).unwrap();
    assert_eq!(tasks.len(), 2);
    assert_eq!(tasks[0].input_source, "/work/one.cpp");
    assert_eq!(tasks[1].input_source, "/work/two.cpp");
    assert_eq!(tasks[0].output_object, "/work/one.obj");
    assert_eq!(tasks[1].output_object, "/work/two.obj");
    assert!(tasks[0].shared.run_second_cpp);
    assert!(std::sync::Arc::ptr_eq(&tasks[0].shared, &tasks[1].shared));
}

#[test]
fn spaceable_prefixes() {
    assert_eq!(is_spaceable_param("DNAME"), Some(("D", Scope::Shared)));
    assert_eq!(is_spaceable_param("Iinclude"), Some(("I", Scope::Preprocessor)));
    assert_eq!(
        is_spaceable_param("sourceDependenciesout.json"),
        Some(("sourceDependencies", Scope::Preprocessor))
    );
    assert_eq!(is_spaceable_param("W4"), Some(("W", Scope::Compiler)));
    assert_eq!(is_spaceable_param("wd4996"), Some(("wd", Scope::Compiler)));
    assert_eq!(is_spaceable_param("c"), None);
}

#[test]
fn param_prefix_sigils() {
    assert!(has_param_prefix("/c"));
    assert!(has_param_prefix("-I."));
    assert!(!has_param_prefix("sample.cpp"));
    assert!(!has_param_prefix(""));
}
