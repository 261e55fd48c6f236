//! Names of processes from the paths of their executables.
//!
//! A path is readable for every process, so anything with a process id can be
//! named. A binary that lives at `.../tool/versions/2.1.158` is "tool", not
//! "2.1.158".

use crate::bytes::{self, lossy_text};
use crate::num::{self, signed_digits};
use crate::text::{self, pieces};
use vstd::prelude::*;
use vstd::string::*;

verus! {

/// The bytes before the first zero.
pub open spec fn before_zero(bytes: Seq<u8>) -> Seq<u8>
    decreases bytes.len(),
{
    if bytes.len() == 0 || bytes[0] == 0 {
        seq![]
    } else {
        seq![bytes[0]] + before_zero(bytes.skip(1))
    }
}

/// The bytes before the first zero.
pub fn until_zero(bytes: &[u8]) -> (r: Vec<u8>)
    ensures
        r@ == before_zero(bytes@),
{
    let n: usize = bytes.len();
    let mut out: Vec<u8> = Vec::new();
    let mut i: usize = 0;
    proof {
        assert(bytes@.skip(0) =~= bytes@);
        assert(out@ + before_zero(bytes@) =~= before_zero(bytes@));
    }
    while i < n && bytes[i] != 0
        invariant
            i <= n,
            n == bytes@.len(),
            before_zero(bytes@) == out@ + before_zero(bytes@.skip(i as int)),
        decreases n - i,
    {
        let ghost before = out@;
        let ghost rest = bytes@.skip(i as int);
        out.push(bytes[i]);
        proof {
            assert(rest.skip(1) =~= bytes@.skip(i + 1));
            assert(before + (seq![rest[0]] + before_zero(rest.skip(1))) =~= out@ + before_zero(
                bytes@.skip(i + 1),
            ));
        }
        i += 1;
    }
    assert(out@ + before_zero(bytes@.skip(i as int)) =~= out@);
    out
}

/// The text of a zero-terminated field.
pub fn read_cstr(bytes: &[u8]) -> (r: String)
    ensures
        r@ == lossy_text(before_zero(bytes@)),
{
    bytes::lossy(&until_zero(bytes))
}

/// The executable path from what the system wrote for a process, if it wrote
/// anything.
pub fn pidpath(raw: Option<Vec<u8>>) -> (r: Option<String>)
    ensures
        match raw {
            Some(bytes) => r matches Some(path) && path@ == lossy_text(before_zero(bytes@)),
            None => r is None,
        },
{
    match raw {
        Some(bytes) => Some(read_cstr(&bytes)),
        None => None,
    }
}

/// Only digits and dots, with a dot among them.
pub open spec fn is_version(s: Seq<char>) -> bool {
    &&& forall|i: int| 0 <= i < s.len() ==> '0' <= (#[trigger] s[i]) <= '9' || s[i] == '.'
    &&& exists|i: int| 0 <= i < s.len() && #[trigger] s[i] == '.'
}

/// Whether a part of a path is a version number.
pub fn looks_like_version(s: &[char]) -> (r: bool)
    ensures
        r == is_version(s@),
{
    let n: usize = s.len();
    let mut dot = false;
    let mut i: usize = 0;
    while i < n
        invariant
            i <= n,
            n == s@.len(),
            forall|k: int| 0 <= k < i ==> '0' <= (#[trigger] s@[k]) <= '9' || s@[k] == '.',
            dot == exists|k: int| 0 <= k < i && #[trigger] s@[k] == '.',
        decreases n - i,
    {
        let c: char = s[i];
        if c == '.' {
            assert(s@[i as int] == '.');
            dot = true;
        } else if !('0' <= c && c <= '9') {
            return false;
        }
        i += 1;
    }
    dot
}

/// The parts of a path that are not empty.
pub open spec fn parts_of(path: Seq<char>) -> Seq<Seq<char>> {
    pieces(path, '/').filter(|p: Seq<char>| p.len() > 0)
}

/// The part names no program: it is a version number, or the directory that
/// keeps one.
pub open spec fn says_nothing(parts: Seq<Seq<char>>, i: int) -> bool {
    is_version(parts[i]) || (parts[i] == "versions"@ && i + 1 < parts.len() && is_version(
        parts[i + 1],
    ))
}

/// The last of the first `n` parts that names something.
pub open spec fn last_meaningful(parts: Seq<Seq<char>>, n: int) -> Option<Seq<char>>
    decreases n,
{
    if n <= 0 {
        None
    } else if !says_nothing(parts, n - 1) {
        Some(parts[n - 1])
    } else {
        last_meaningful(parts, n - 1)
    }
}

/// The last of the first `n` parts that is no version number.
pub open spec fn last_unversioned(parts: Seq<Seq<char>>, n: int) -> Option<Seq<char>>
    decreases n,
{
    if n <= 0 {
        None
    } else if !is_version(parts[n - 1]) {
        Some(parts[n - 1])
    } else {
        last_unversioned(parts, n - 1)
    }
}

/// The last part of a path that names something; where none does, its last
/// part that is no version number, and where all are, its last part.
pub open spec fn basename_of(path: Seq<char>) -> Option<Seq<char>> {
    let parts = parts_of(path);
    let n = parts.len() as int;
    if last_meaningful(parts, n) is Some {
        last_meaningful(parts, n)
    } else if last_unversioned(parts, n) is Some {
        last_unversioned(parts, n)
    } else if n > 0 {
        Some(parts.last())
    } else {
        None
    }
}

/// The parts of a path that are not empty.
fn path_parts(path: &str) -> (r: Vec<Vec<char>>)
    ensures
        text::views(r@) == parts_of(path@),
{
    let all = text::split(&text::chars(path), '/');
    let mut parts: Vec<Vec<char>> = Vec::new();
    let mut i: usize = 0;
    let ghost cut = pieces(path@, '/');
    proof {
        reveal(Seq::filter);
        assert(text::views(parts@) =~= cut.take(0).filter(|p: Seq<char>| p.len() > 0));
    }
    while i < all.len()
        invariant
            i <= all@.len(),
            cut == pieces(path@, '/'),
            cut == text::views(all@),
            text::views(parts@) == cut.take(i as int).filter(|p: Seq<char>| p.len() > 0),
        decreases all.len() - i,
    {
        proof {
            reveal(Seq::filter);
            assert(cut.take(i + 1).drop_last() =~= cut.take(i as int));
            assert(cut.take(i + 1).last() == all@[i as int]@);
        }
        if all[i].len() > 0 {
            let ghost before = parts@;
            parts.push(text::piece(&all[i], 0, all[i].len()));
            proof {
                assert(parts@.last()@ =~= all@[i as int]@);
                assert(text::views(parts@) =~= text::views(before).push(all@[i as int]@));
            }
        }
        i += 1;
    }
    assert(cut.take(i as int) =~= cut);
    parts
}

/// The last part of a path, past version numbers and the directories that keep
/// them.
pub fn meaningful_basename(path: &str) -> (r: Option<String>)
    ensures
        text::opt_text(r) == basename_of(path@),
{
    let parts = path_parts(path);
    let ghost kept = parts_of(path@);
    let n: usize = parts.len();
    let mut k: usize = n;
    let mut below: bool = false;
    let mut fallback: usize = n;
    proof {
        assert(text::views(parts@).len() == parts@.len());
    }
    while k > 0
        invariant
            k <= n,
            n == parts@.len(),
            kept == text::views(parts@),
            kept == parts_of(path@),
            kept.len() == n,
            below == (k < n && is_version(kept[k as int])),
            last_meaningful(kept, n as int) == last_meaningful(kept, k as int),
            fallback <= n,
            fallback == n ==> last_unversioned(kept, n as int) == last_unversioned(kept, k as int),
            fallback < n ==> last_unversioned(kept, n as int) == Some(kept[fallback as int]),
        decreases k,
    {
        let part = &parts[k - 1];
        assert(kept[k - 1] == part@);
        let version = looks_like_version(part);
        if !version && !(below && text::same(part, "versions")) {
            return Some(text::text(part));
        }
        below = version;
        k -= 1;
        if !version && fallback == n {
            fallback = k;
        }
    }
    if fallback < n {
        assert(kept[fallback as int] == parts@[fallback as int]@);
        return Some(text::text(&parts[fallback]));
    }
    if n > 0 {
        assert(kept[n - 1] == parts@[n - 1]@);
        Some(text::text(&parts[n - 1]))
    } else {
        None
    }
}

/// The name of a process from its path, or its number.
pub open spec fn name_by_path(pid: i32, path: Option<Seq<char>>) -> Seq<char> {
    match path {
        Some(p) => match basename_of(p) {
            Some(name) => name,
            None => "pid "@ + signed_digits(pid as int),
        },
        None => "pid "@ + signed_digits(pid as int),
    }
}

/// The best name for a process whose executable path is known or not.
pub fn resolve_name(pid: i32, path: Option<&str>) -> (r: String)
    ensures
        r@ == name_by_path(
            pid,
            match path {
                Some(p) => Some(p@),
                None => None,
            },
        ),
{
    if let Some(p) = path {
        if let Some(name) = meaningful_basename(p) {
            return name;
        }
    }
    let mut r = text::copy("pid ");
    r.append(num::signed(pid as i64).as_str());
    r
}

} // verus!
