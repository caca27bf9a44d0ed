//! Pure path reasoning over `String` paths: file name, extension, parent
//! directory, and the extension filter that decides which files the viewer
//! accepts. Paths are plain character sequences; `/` separates components.

use vstd::prelude::*;
use vstd::string::StrSliceExecFns;

verus! {

/// The characters of `s` strictly after the last occurrence of `c`;
/// all of `s` when `c` does not occur.
pub open spec fn suffix_after_last(s: Seq<char>, c: char) -> Seq<char>
    decreases s.len(),
{
    if s.len() == 0 {
        s
    } else if s.last() == c {
        Seq::empty()
    } else {
        suffix_after_last(s.drop_last(), c).push(s.last())
    }
}

/// The characters of `s` strictly before the last occurrence of `c`;
/// empty when `c` does not occur.
pub open spec fn prefix_before_last(s: Seq<char>, c: char) -> Seq<char>
    decreases s.len(),
{
    if s.len() == 0 {
        s
    } else if s.last() == c {
        s.drop_last()
    } else {
        prefix_before_last(s.drop_last(), c)
    }
}

pub open spec fn has_char(s: Seq<char>, c: char) -> bool {
    exists|i: int| 0 <= i < s.len() && s[i] == c
}

/// The final path component: everything after the last separator.
pub open spec fn file_name_of(p: Seq<char>) -> Seq<char> {
    suffix_after_last(p, '/')
}

/// A file name carries an extension when a dot occurs past its first
/// character; a name that is nothing but a leading dot has none.
pub open spec fn name_has_extension(name: Seq<char>) -> bool {
    exists|i: int| 1 <= i < name.len() && name[i] == '.'
}

/// The extension of `p`: the characters of its file name after the last dot,
/// or `None` when the file name has no dot past its first character.
pub open spec fn extension_of_path(p: Seq<char>) -> Option<Seq<char>> {
    let name = file_name_of(p);
    if name_has_extension(name) {
        Some(suffix_after_last(name, '.'))
    } else {
        None
    }
}

proof fn lemma_suffix_after_last_absent(s: Seq<char>, c: char)
    requires
        !has_char(s, c),
    ensures
        suffix_after_last(s, c) == s,
    decreases s.len(),
{
    if s.len() > 0 {
        assert(s[s.len() - 1] != c);
        assert(!has_char(s.drop_last(), c)) by {
            assert(forall|i: int|
                0 <= i < s.drop_last().len() ==> s.drop_last()[i] == s[i]);
        }
        lemma_suffix_after_last_absent(s.drop_last(), c);
        assert(suffix_after_last(s, c) =~= s);
    } else {
        assert(suffix_after_last(s, c) =~= s);
    }
}

proof fn lemma_suffix_after_last_at(s: Seq<char>, c: char, i: int)
    requires
        0 <= i < s.len(),
        s[i] == c,
        forall|j: int| i < j < s.len() ==> s[j] != c,
    ensures
        suffix_after_last(s, c) == s.subrange(i + 1, s.len() as int),
    decreases s.len(),
{
    if i == s.len() - 1 {
        assert(suffix_after_last(s, c) =~= s.subrange(i + 1, s.len() as int));
    } else {
        assert(s.last() != c);
        let d = s.drop_last();
        assert(d[i] == c);
        lemma_suffix_after_last_at(d, c, i);
        assert(suffix_after_last(s, c) =~= s.subrange(i + 1, s.len() as int));
    }
}

proof fn lemma_prefix_before_last_at(s: Seq<char>, c: char, i: int)
    requires
        0 <= i < s.len(),
        s[i] == c,
        forall|j: int| i < j < s.len() ==> s[j] != c,
    ensures
        prefix_before_last(s, c) == s.subrange(0, i),
    decreases s.len(),
{
    if i == s.len() - 1 {
        assert(prefix_before_last(s, c) =~= s.subrange(0, i));
    } else {
        assert(s.last() != c);
        let d = s.drop_last();
        assert(d[i] == c);
        lemma_prefix_before_last_at(d, c, i);
        assert(prefix_before_last(s, c) =~= s.subrange(0, i));
    }
}

/// Index of the last occurrence of `c` in `s`, if any.
fn last_index_of(s: &str, c: char) -> (r: Option<usize>)
    ensures
        match r {
            Some(i) => i < s@.len() && s@[i as int] == c && forall|j: int|
                i < j < s@.len() ==> s@[j] != c,
            None => !has_char(s@, c),
        },
{
    let n: usize = s.unicode_len();
    let mut i: usize = n;
    while i > 0
        invariant
            i <= n,
            n == s@.len(),
            forall|j: int| i <= j < n ==> s@[j] != c,
        decreases i,
    {
        i = i - 1;
        if s.get_char(i) == c {
            return Some(i);
        }
    }
    None
}

/// Character-for-character string equality.
fn str_eq(a: &str, b: &str) -> (r: bool)
    ensures
        r == (a@ == b@),
{
    let n: usize = a.unicode_len();
    if n != b.unicode_len() {
        return false;
    }
    let mut i: usize = 0;
    while i < n
        invariant
            i <= n,
            n == a@.len(),
            n == b@.len(),
            forall|j: int| 0 <= j < i ==> a@[j] == b@[j],
        decreases n - i,
    {
        if a.get_char(i) != b.get_char(i) {
            assert(a@ != b@);
            return false;
        }
        i = i + 1;
    }
    assert(a@ =~= b@);
    true
}

/// The extension of `path`, per `extension_of_path`.
pub fn extension_of(path: &str) -> (r: Option<String>)
    ensures
        match r {
            Some(e) => extension_of_path(path@) == Some(e@),
            None => extension_of_path(path@) is None,
        },
{
    let n: usize = path.unicode_len();
    let name_start: usize = match last_index_of(path, '/') {
        Some(i) => {
            proof {
                lemma_suffix_after_last_at(path@, '/', i as int);
            }
            i + 1
        },
        None => {
            proof {
                lemma_suffix_after_last_absent(path@, '/');
            }
            0
        },
    };
    let ghost name = file_name_of(path@);
    proof {
        assert(name =~= path@.subrange(name_start as int, n as int));
    }
    let mut i: usize = n;
    let mut dot: Option<usize> = None;
    while i > name_start && dot.is_none()
        invariant
            name_start <= i <= n,
            n == path@.len(),
            name_start <= n,
            match dot {
                Some(d) => name_start <= d < n && path@[d as int] == '.' && forall|j: int|
                    d < j < n ==> path@[j] != '.',
                None => forall|j: int| i <= j < n ==> path@[j] != '.',
            },
        decreases i,
    {
        i = i - 1;
        if path.get_char(i) == '.' {
            dot = Some(i);
        }
    }
    match dot {
        Some(d) => {
            if d == name_start {
                assert(!name_has_extension(name));
                None
            } else {
                proof {
                    assert(name[d - name_start] == '.');
                    assert(name_has_extension(name));
                    lemma_suffix_after_last_at(name, '.', d - name_start);
                    assert(suffix_after_last(name, '.') =~= path@.subrange(
                        d + 1,
                        n as int,
                    ));
                }
                Some(path.substring_char(d + 1, n).to_owned())
            }
        },
        None => {
            assert(!name_has_extension(name));
            None
        },
    }
}

/// The parent directory of `path`: the characters before the last separator,
/// or the root itself when that separator leads the path. A path without a
/// separator, and the bare root, have no parent.
pub open spec fn parent_of_path(p: Seq<char>) -> Option<Seq<char>> {
    if !has_char(p, '/') {
        None
    } else {
        let q = prefix_before_last(p, '/');
        if q.len() == 0 {
            if p.len() == 1 {
                None
            } else {
                Some(seq!['/'])
            }
        } else {
            Some(q)
        }
    }
}

/// The parent directory of `path`, per `parent_of_path`.
pub fn parent_of(path: &str) -> (r: Option<String>)
    ensures
        match r {
            Some(d) => parent_of_path(path@) == Some(d@),
            None => parent_of_path(path@) is None,
        },
{
    match last_index_of(path, '/') {
        None => None,
        Some(i) => {
            proof {
                lemma_prefix_before_last_at(path@, '/', i as int);
            }
            if i == 0 {
                if path.unicode_len() == 1 {
                    None
                } else {
                    let root = "/";
                    proof {
                        reveal_strlit("/");
                        assert(root@ =~= seq!['/']);
                    }
                    Some(root.to_owned())
                }
            } else {
                Some(path.substring_char(0, i).to_owned())
            }
        },
    }
}

/// The fixed allow-list of media extensions, compared case-sensitively.
pub open spec fn allowed_extension(e: Seq<char>) -> bool {
    ||| e == "jpg"@
    ||| e == "jpeg"@
    ||| e == "png"@
    ||| e == "webp"@
    ||| e == "gif"@
    ||| e == "avif"@
    ||| e == "webm"@
    ||| e == "mp4"@
    ||| e == "mkv"@
}

/// A path is accepted exactly when it has an extension and that extension,
/// compared case-sensitively, is in the allow-list.
pub open spec fn accepts(p: Seq<char>) -> bool {
    match extension_of_path(p) {
        Some(e) => allowed_extension(e),
        None => false,
    }
}

fn is_allowed_extension(e: &str) -> (r: bool)
    ensures
        r == allowed_extension(e@),
{
    ||| str_eq(e, "jpg")
    ||| str_eq(e, "jpeg")
    ||| str_eq(e, "png")
    ||| str_eq(e, "webp")
    ||| str_eq(e, "gif")
    ||| str_eq(e, "avif")
    ||| str_eq(e, "webm")
    ||| str_eq(e, "mp4")
    ||| str_eq(e, "mkv")
}

/// Whether the viewer treats `path` as a supported media file.
pub fn is_accepted_path(path: &str) -> (r: bool)
    ensures
        r == accepts(path@),
{
    match extension_of(path) {
        Some(e) => is_allowed_extension(e.as_str()),
        None => false,
    }
}

} // verus!
