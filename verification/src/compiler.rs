use vstd::prelude::*;

verus! {

/// Routing tag of a flag: which sub-invocation receives it.
/// `Ignore` reaches neither the preprocessing nor the compile step.
#[derive(Clone, Copy, Debug, PartialEq, Eq, Structural)]
pub enum Scope {
    Preprocessor,
    Compiler,
    Shared,
    Ignore,
}

#[derive(Clone, Copy, Debug, PartialEq, Eq, Structural)]
pub enum InputKind {
    Source,
    Precompiled,
    Marker,
}

#[derive(Clone, Copy, Debug, PartialEq, Eq, Structural)]
pub enum OutputKind {
    Object,
    Marker,
}

/// One parsed command-line argument.
#[derive(Debug)]
#[allow(inconsistent_fields)]
pub enum Arg {
    Input { kind: InputKind, flag: String, file: String },
    Output { kind: OutputKind, flag: String, file: String },
    Flag { scope: Scope, name: String },
    Param { scope: Scope, flag: String, value: String, spaced: bool },
}

/// The mathematical value of an [`Arg`]: the same shape over character sequences.
#[allow(inconsistent_fields)]
pub enum ArgView {
    Input { kind: InputKind, flag: Seq<char>, file: Seq<char> },
    Output { kind: OutputKind, flag: Seq<char>, file: Seq<char> },
    Flag { scope: Scope, name: Seq<char> },
    Param { scope: Scope, flag: Seq<char>, value: Seq<char>, spaced: bool },
}

impl View for Arg {
    type V = ArgView;

    open spec fn view(&self) -> ArgView {
        match self {
            Arg::Input { kind, flag, file } => (ArgView::Input {
                kind: *kind,
                flag: flag@,
                file: file@,
            }),
            Arg::Output { kind, flag, file } => (ArgView::Output {
                kind: *kind,
                flag: flag@,
                file: file@,
            }),
            Arg::Flag { scope, name } => (ArgView::Flag { scope: *scope, name: name@ }),
            Arg::Param { scope, flag, value, spaced } => (ArgView::Param {
                scope: *scope,
                flag: flag@,
                value: value@,
                spaced: *spaced,
            }),
        }
    }
}

impl DeepView for Arg {
    type V = ArgView;

    open spec fn deep_view(&self) -> ArgView {
        self.view()
    }
}

impl Arg {
    /// A plain flag with the given scope.
    pub fn flag(scope: Scope, name: &str) -> (r: Arg)
        ensures
            r@ == (ArgView::Flag { scope, name: name@ }),
    {
        Arg::Flag { scope, name: name.to_owned() }
    }

    /// A flag carrying a value, `spaced` iff the value came as the next token.
    pub fn param(scope: Scope, flag: &str, value: &str, spaced: bool) -> (r: Arg)
        ensures
            r@ == (ArgView::Param { scope, flag: flag@, value: value@, spaced }),
    {
        Arg::Param { scope, flag: flag.to_owned(), value: value.to_owned(), spaced }
    }

    /// An input file of the given kind.
    pub fn input(kind: InputKind, flag: &str, file: &str) -> (r: Arg)
        ensures
            r@ == (ArgView::Input { kind, flag: flag@, file: file@ }),
    {
        Arg::Input { kind, flag: flag.to_owned(), file: file.to_owned() }
    }

    /// An output file of the given kind.
    pub fn output(kind: OutputKind, flag: &str, file: &str) -> (r: Arg)
        ensures
            r@ == (ArgView::Output { kind, flag: flag@, file: file@ }),
    {
        Arg::Output { kind, flag: flag.to_owned(), file: file.to_owned() }
    }
}

impl PartialEq for Arg {
    fn eq(&self, other: &Arg) -> (r: bool) {
        match (self, other) {
            (
                Arg::Input { kind: k1, flag: f1, file: l1 },
                Arg::Input { kind: k2, flag: f2, file: l2 },
            ) => *k1 == *k2 && *f1 == *f2 && *l1 == *l2,
            (
                Arg::Output { kind: k1, flag: f1, file: l1 },
                Arg::Output { kind: k2, flag: f2, file: l2 },
            ) => *k1 == *k2 && *f1 == *f2 && *l1 == *l2,
            (
                Arg::Flag { scope: s1, name: n1 },
                Arg::Flag { scope: s2, name: n2 },
            ) => *s1 == *s2 && *n1 == *n2,
            (
                Arg::Param { scope: s1, flag: f1, value: v1, spaced: p1 },
                Arg::Param { scope: s2, flag: f2, value: v2, spaced: p2 },
            ) => *s1 == *s2 && *f1 == *f2 && *v1 == *v2 && *p1 == *p2,
            _ => false,
        }
    }
}

impl vstd::std_specs::cmp::PartialEqSpecImpl for Arg {
    open spec fn obeys_eq_spec() -> bool {
        true
    }

    open spec fn eq_spec(&self, other: &Arg) -> bool {
        self@ == other@
    }
}

/// The paths of a precompiled-header role: as written, absolutized, and the
/// marker header named by `/Yc` or `/Yu` (absent when the marker stem is empty).
#[derive(Debug)]
pub struct PCHArgs {
    pub path: String,
    pub path_abs: String,
    pub marker: Option<String>,
}

pub struct PCHArgsView {
    pub path: Seq<char>,
    pub path_abs: Seq<char>,
    pub marker: Option<Seq<char>>,
}

impl View for PCHArgs {
    type V = PCHArgsView;

    open spec fn view(&self) -> PCHArgsView {
        PCHArgsView { path: self.path@, path_abs: self.path_abs@, marker: self.marker.deep_view() }
    }
}

/// Precompiled-header role of one compilation: none, consuming one, or producing one.
/// The two roles are mutually exclusive by construction.
#[derive(Debug)]
pub enum PCHUsage {
    Unused,
    In(PCHArgs),
    Out(PCHArgs),
}

pub enum PCHUsageView {
    Unused,
    In(PCHArgsView),
    Out(PCHArgsView),
}

impl View for PCHUsage {
    type V = PCHUsageView;

    open spec fn view(&self) -> PCHUsageView {
        match self {
            PCHUsage::Unused => PCHUsageView::Unused,
            PCHUsage::In(a) => PCHUsageView::In(a@),
            PCHUsage::Out(a) => PCHUsageView::Out(a@),
        }
    }
}

/// The invocation context: the working directory every relative path is
/// resolved against.
#[derive(Debug)]
pub struct CommandInfo {
    pub current_dir: String,
}

/// The immutable parsed representation shared by every task of one invocation.
#[derive(Debug)]
pub struct CompilationArgs {
    pub args: Vec<Arg>,
    pub pch_usage: PCHUsage,
    pub command: CommandInfo,
    pub deps_file: Option<String>,
    pub run_second_cpp: bool,
}

pub struct CompilationArgsView {
    pub args: Seq<ArgView>,
    pub pch_usage: PCHUsageView,
    pub current_dir: Seq<char>,
    pub deps_file: Option<Seq<char>>,
    pub run_second_cpp: bool,
}

impl View for CompilationArgs {
    type V = CompilationArgsView;

    open spec fn view(&self) -> CompilationArgsView {
        CompilationArgsView {
            args: self.args.deep_view(),
            pch_usage: self.pch_usage@,
            current_dir: self.command.current_dir@,
            deps_file: self.deps_file.deep_view(),
            run_second_cpp: self.run_second_cpp,
        }
    }
}

/// One compile step: one source, its language and its object file, plus the
/// shared invocation state.
pub struct CompilationTask {
    pub shared: std::sync::Arc<CompilationArgs>,
    pub language: String,
    pub output_object: String,
    pub input_source: String,
}

pub struct CompilationTaskView {
    pub shared: CompilationArgsView,
    pub language: Seq<char>,
    pub output_object: Seq<char>,
    pub input_source: Seq<char>,
}

impl View for CompilationTask {
    type V = CompilationTaskView;

    open spec fn view(&self) -> CompilationTaskView {
        CompilationTaskView {
            shared: self.shared@,
            language: self.language@,
            output_object: self.output_object@,
            input_source: self.input_source@,
        }
    }
}

impl DeepView for CompilationTask {
    type V = CompilationTaskView;

    open spec fn deep_view(&self) -> CompilationTaskView {
        self.view()
    }
}

/// Why an invocation cannot be split into compilation tasks.
#[derive(Debug)]
pub enum PrepareError {
    /// Tokens that no rule of the flag tables recognizes, in order.
    UnknownArguments(Vec<String>),
    /// The argument list names no source file.
    NoSourceFile,
    /// More than one `/Fp` precompiled-header path.
    TooManyPrecompiledFiles,
    /// More than one `/Yc` or `/Yu` precompiled-header marker.
    TooManyPrecompiledMarkers,
    /// More than one `/Fo` output object.
    TooManyOutputObjects,
    /// More than one `/T` language selector.
    TooManyLanguageParams,
    /// The named source has no extension the language table knows.
    UnknownLanguage(String),
    /// The named source path ends in a separator, so no file name can be
    /// appended to an output directory.
    MissingFileName(String),
}

pub enum PrepareErrorView {
    UnknownArguments(Seq<Seq<char>>),
    NoSourceFile,
    TooManyPrecompiledFiles,
    TooManyPrecompiledMarkers,
    TooManyOutputObjects,
    TooManyLanguageParams,
    UnknownLanguage(Seq<char>),
    MissingFileName(Seq<char>),
}

impl View for PrepareError {
    type V = PrepareErrorView;

    open spec fn view(&self) -> PrepareErrorView {
        match self {
            PrepareError::UnknownArguments(ts) => PrepareErrorView::UnknownArguments(ts.deep_view()),
            PrepareError::NoSourceFile => PrepareErrorView::NoSourceFile,
            PrepareError::TooManyPrecompiledFiles => PrepareErrorView::TooManyPrecompiledFiles,
            PrepareError::TooManyPrecompiledMarkers => PrepareErrorView::TooManyPrecompiledMarkers,
            PrepareError::TooManyOutputObjects => PrepareErrorView::TooManyOutputObjects,
            PrepareError::TooManyLanguageParams => PrepareErrorView::TooManyLanguageParams,
            PrepareError::UnknownLanguage(s) => PrepareErrorView::UnknownLanguage(s@),
            PrepareError::MissingFileName(s) => PrepareErrorView::MissingFileName(s@),
        }
    }
}

/// Relies on std's `Arc::clone`: the clone refers to the same underlying value.
#[verifier::external_body]
pub fn arc_clone<T>(a: &std::sync::Arc<T>) -> (r: std::sync::Arc<T>)
    ensures
        r == *a,
{
    std::sync::Arc::clone(a)
}

} // verus!
