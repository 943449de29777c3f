use vstd::prelude::*;

verus! {

/// Paths are modelled as plain character strings. Both separators of the
/// MSVC world are recognized; a path is absolute when it starts with a
/// separator or names a drive (`:` in second position).
pub open spec fn spec_is_separator(c: char) -> bool {
    c == '/' || c == '\\'
}

pub open spec fn spec_is_absolute(p: Seq<char>) -> bool {
    (p.len() > 0 && spec_is_separator(p[0])) || (p.len() >= 2 && p[1] == ':')
}

/// Whether the path stands on its own, without the working directory.
pub fn is_absolute_path(p: &str) -> (r: bool)
    ensures
        r == spec_is_absolute(p@),
{
    let n = p.unicode_len();
    if n == 0 {
        return false;
    }
    let c0 = p.get_char(0);
    if c0 == '/' || c0 == '\\' {
        return true;
    }
    n >= 2 && p.get_char(1) == ':'
}

/// `dir` and `p` glued with exactly one separator between them.
pub open spec fn spec_join(dir: Seq<char>, p: Seq<char>) -> Seq<char> {
    if dir.len() > 0 && spec_is_separator(dir[dir.len() - 1]) {
        dir + p
    } else {
        dir + seq!['/'] + p
    }
}

/// A relative path resolved against the working directory; an absolute path
/// is kept as it is.
pub open spec fn spec_absolutize(dir: Seq<char>, p: Seq<char>) -> Seq<char> {
    if spec_is_absolute(p) {
        p
    } else {
        spec_join(dir, p)
    }
}

/// Resolves `p` against the directory `dir`.
pub fn absolutize(dir: &str, p: &str) -> (r: String)
    ensures
        r@ == spec_absolutize(dir@, p@),
{
    if is_absolute_path(p) {
        return p.to_owned();
    }
    let dn = dir.unicode_len();
    let mut r = dir.to_owned();
    if dn == 0 {
        r.append("/");
    } else {
        let last = dir.get_char(dn - 1);
        if !(last == '/' || last == '\\') {
            r.append("/");
        }
    }
    r.append(p);
    proof {
        reveal_strlit("/");
        assert("/"@ =~= seq!['/']);
        assert(r@ =~= spec_absolutize(dir@, p@));
    }
    r
}

/// An absolute working directory keeps every resolved path absolute.
pub proof fn lemma_absolutize_absolute(dir: Seq<char>, p: Seq<char>)
    requires
        spec_is_absolute(dir),
    ensures
        spec_is_absolute(spec_absolutize(dir, p)),
{
    if !spec_is_absolute(p) {
        assert(spec_join(dir, p)[0] == dir[0]);
        if dir.len() >= 2 {
            assert(spec_join(dir, p)[1] == dir[1]);
        }
    }
}

/// The final component of the path: everything after the last separator.
pub open spec fn spec_file_name(p: Seq<char>) -> Seq<char>
    decreases p.len(),
{
    if p.len() == 0 {
        Seq::empty()
    } else if spec_is_separator(p.last()) {
        Seq::empty()
    } else {
        spec_file_name(p.drop_last()).push(p.last())
    }
}

/// Position of the last `.` of the name, if any.
pub open spec fn spec_last_dot(name: Seq<char>) -> Option<int>
    decreases name.len(),
{
    if name.len() == 0 {
        Option::None
    } else if name.last() == '.' {
        Option::Some(name.len() - 1)
    } else {
        spec_last_dot(name.drop_last())
    }
}

/// The extension of the path: what follows the last `.` of the file name,
/// provided that dot is not the name's first character.
pub open spec fn spec_extension(p: Seq<char>) -> Option<Seq<char>> {
    let name = spec_file_name(p);
    match spec_last_dot(name) {
        Option::Some(i) => if i > 0 {
            Option::Some(name.skip(i + 1))
        } else {
            Option::None
        },
        Option::None => Option::None,
    }
}

/// The path with its extension replaced by `ext` (or `.ext` appended when the
/// file name has no dot to cut at).
pub open spec fn spec_with_extension(p: Seq<char>, ext: Seq<char>) -> Seq<char> {
    let name = spec_file_name(p);
    let stem = match spec_last_dot(name) {
        Option::Some(i) => if i > 0 {
            name.take(i)
        } else {
            name
        },
        Option::None => name,
    };
    p.take(p.len() - name.len()) + stem + seq!['.'] + ext
}

/// When nothing at or after position `k` is a separator and `k` sits right
/// after one (or at the start), the file name is exactly the suffix from `k`.
pub proof fn lemma_file_name_suffix(p: Seq<char>, k: int)
    requires
        0 <= k <= p.len(),
        forall|j: int| k <= j < p.len() ==> !spec_is_separator(#[trigger] p[j]),
        k > 0 ==> spec_is_separator(p[k - 1]),
    ensures
        spec_file_name(p) == p.skip(k),
    decreases p.len(),
{
    if p.len() == 0 {
        assert(spec_file_name(p) =~= p.skip(k));
    } else if k == p.len() {
        if k > 0 {
            assert(spec_is_separator(p.last()));
        }
        assert(spec_file_name(p) =~= p.skip(k));
    } else {
        assert(!spec_is_separator(p.last()));
        lemma_file_name_suffix(p.drop_last(), k);
        assert(spec_file_name(p) =~= p.skip(k));
    }
}

/// When position `i` holds the last dot of the name, `spec_last_dot` finds it.
pub proof fn lemma_last_dot_some(name: Seq<char>, i: int)
    requires
        0 <= i < name.len(),
        name[i] == '.',
        forall|j: int| i < j < name.len() ==> #[trigger] name[j] != '.',
    ensures
        spec_last_dot(name) == Option::Some(i),
    decreases name.len(),
{
    if i == name.len() - 1 {
    } else {
        assert(name.last() != '.');
        lemma_last_dot_some(name.drop_last(), i);
    }
}

/// A name without any dot has no last dot.
pub proof fn lemma_last_dot_none(name: Seq<char>)
    requires
        forall|j: int| 0 <= j < name.len() ==> #[trigger] name[j] != '.',
    ensures
        spec_last_dot(name) is None,
    decreases name.len(),
{
    if name.len() > 0 {
        lemma_last_dot_none(name.drop_last());
    }
}

/// Index right after the last separator; the whole path is the file name when
/// there is none.
pub(crate) fn find_name_start(p: &str) -> (k: usize)
    ensures
        k <= p@.len(),
        forall|j: int| k <= j < p@.len() ==> !spec_is_separator(#[trigger] p@[j]),
        k > 0 ==> spec_is_separator(p@[k - 1]),
{
    let n = p.unicode_len();
    let mut k = n;
    while k > 0
        invariant
            k <= n,
            n == p@.len(),
            forall|j: int| k <= j < n ==> !spec_is_separator(#[trigger] p@[j]),
        decreases k,
    {
        let c = p.get_char(k - 1);
        if c == '/' || c == '\\' {
            return k;
        }
        k = k - 1;
    }
    0
}

/// Index of the last `.` at or after `k`, if any.
pub(crate) fn find_last_dot(p: &str, k: usize) -> (d: Option<usize>)
    requires
        k <= p@.len(),
    ensures
        match d {
            Option::Some(di) => k <= di < p@.len() && p@[di as int] == '.' && (forall|j: int|
                di < j < p@.len() ==> #[trigger] p@[j] != '.'),
            Option::None => forall|j: int| k <= j < p@.len() ==> #[trigger] p@[j] != '.',
        },
{
    let n = p.unicode_len();
    let mut m = n;
    while m > k
        invariant
            k <= m <= n,
            n == p@.len(),
            forall|j: int| m <= j < n ==> #[trigger] p@[j] != '.',
        decreases m,
    {
        let c = p.get_char(m - 1);
        if c == '.' {
            return Option::Some(m - 1);
        }
        m = m - 1;
    }
    Option::None
}

/// The path with its extension replaced by `ext`.
pub fn with_extension(p: &str, ext: &str) -> (r: String)
    ensures
        r@ == spec_with_extension(p@, ext@),
{
    let n = p.unicode_len();
    let k = find_name_start(p);
    let d = find_last_dot(p, k);
    proof {
        lemma_file_name_suffix(p@, k as int);
    }
    let base: &str = match d {
        Option::Some(di) => {
            proof {
                lemma_last_dot_some(p@.skip(k as int), di - k as int);
            }
            if di > k {
                p.substring_char(0, di)
            } else {
                p
            }
        },
        Option::None => {
            proof {
                lemma_last_dot_none(p@.skip(k as int));
            }
            p
        },
    };
    let mut r = base.to_owned();
    r.append(".");
    r.append(ext);
    proof {
        reveal_strlit(".");
        assert("."@ =~= seq!['.']);
        assert(r@ =~= spec_with_extension(p@, ext@));
    }
    r
}

/// Glues `p` onto the directory `dir` with exactly one separator.
pub fn join_path(dir: &str, p: &str) -> (r: String)
    ensures
        r@ == spec_join(dir@, p@),
{
    let dn = dir.unicode_len();
    let mut r = dir.to_owned();
    if dn == 0 {
        r.append("/");
    } else {
        let last = dir.get_char(dn - 1);
        if !(last == '/' || last == '\\') {
            r.append("/");
        }
    }
    r.append(p);
    proof {
        reveal_strlit("/");
        assert("/"@ =~= seq!['/']);
        assert(r@ =~= spec_join(dir@, p@));
    }
    r
}

} // verus!
