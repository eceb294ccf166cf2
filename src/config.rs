use vstd::prelude::*;
use vstd::string::StringSliceAdditionalSpecFns;

verus! {

/// A rejected command-line setting.
#[derive(Clone, Copy, Debug, PartialEq, Eq)]
pub enum ConfigError {
    /// The rotation was not three components separated by single spaces;
    /// holds the number of spaces found.
    RotationSeparators(usize),
}

/// Number of spaces in `s`.
pub open spec fn space_count(s: Seq<u8>) -> nat
    decreases s.len(),
{
    if s.len() == 0 {
        0
    } else {
        space_count(s.drop_last()) + if s.last() == 32u8 { 1nat } else { 0nat }
    }
}

/// Finds the two spaces that separate the three components of a rotation
/// written `"x y z"`; any other number of spaces is an error.
pub fn rotation_separators(arg: &[u8]) -> (r: Result<(usize, usize), ConfigError>)
    ensures
        r is Ok <==> space_count(arg@) == 2,
        r matches Ok((i, j)) ==> {
            &&& i < j < arg@.len()
            &&& arg@[i as int] == 32u8
            &&& arg@[j as int] == 32u8
            &&& forall|k: int| 0 <= k < arg@.len() && k != i && k != j ==> arg@[k] != 32u8
        },
        r matches Err(ConfigError::RotationSeparators(n)) ==> n == space_count(arg@),
{
    let mut count: usize = 0;
    let mut first: usize = 0;
    let mut second: usize = 0;
    let mut k: usize = 0;
    while k < arg.len()
        invariant
            k <= arg@.len(),
            count == space_count(arg@.subrange(0, k as int)),
            count <= k,
            count >= 1 ==> first < k && arg@[first as int] == 32u8,
            count >= 2 ==> first < second < k && arg@[second as int] == 32u8,
            forall|m: int|
                0 <= m < k && arg@[m] == 32u8 ==> (count >= 1 && m == first) || (count >= 2 && m
                    == second) || count > 2,
        decreases arg@.len() - k,
    {
        assert(arg@.subrange(0, k + 1).drop_last() =~= arg@.subrange(0, k as int));
        if arg[k] == 32u8 {
            if count == 0 {
                first = k;
            } else if count == 1 {
                second = k;
            }
            count = count + 1;
        }
        k = k + 1;
    }
    assert(arg@.subrange(0, k as int) =~= arg@);
    if count == 2 {
        Ok((first, second))
    } else {
        Err(ConfigError::RotationSeparators(count))
    }
}

/// A mesh file format that a loader exists for.
#[derive(Clone, Copy, Debug, PartialEq, Eq)]
pub enum MeshFormat {
    Obj,
    Stl,
}

/// Why an input contributed no meshes.
#[derive(Clone, Debug, PartialEq, Eq)]
pub enum LoadError {
    /// The file name has no extension.
    NoExtension,
    /// The extension names no supported format.
    UnknownExtension,
    /// The loader could not read or parse the file; holds its message.
    Unreadable(String),
}

/// Index of the last `b` in `s`, or -1.
pub open spec fn rfind(s: Seq<u8>, b: u8) -> int
    decreases s.len(),
{
    if s.len() == 0 {
        -1
    } else if s.last() == b {
        s.len() - 1
    } else {
        rfind(s.drop_last(), b)
    }
}

/// The file name: what follows the last `/`.
pub open spec fn file_name(path: Seq<u8>) -> Seq<u8> {
    path.subrange(rfind(path, 47u8) + 1, path.len() as int)
}

/// What follows the last `.` of the file name, where that `.` is not its
/// first byte.
pub open spec fn extension(path: Seq<u8>) -> Option<Seq<u8>> {
    let name = file_name(path);
    let dot = rfind(name, 46u8);
    if dot > 0 {
        Some(name.subrange(dot + 1, name.len() as int))
    } else {
        None
    }
}

pub open spec fn ascii_lower(b: u8) -> u8 {
    if 65 <= b <= 90 {
        (b + 32) as u8
    } else {
        b
    }
}

/// `s` equals the lower-case word `w`, ignoring ASCII case.
pub open spec fn eq_ignore_case(s: Seq<u8>, w: Seq<u8>) -> bool {
    s.len() == w.len() && forall|i: int| 0 <= i < s.len() ==> ascii_lower(#[trigger] s[i]) == w[i]
}

pub open spec fn format_spec(path: Seq<u8>) -> Result<MeshFormat, LoadError> {
    match extension(path) {
        None => Err(LoadError::NoExtension),
        Some(e) => if eq_ignore_case(e, seq![111u8, 98u8, 106u8]) {
            Ok(MeshFormat::Obj)
        } else if eq_ignore_case(e, seq![115u8, 116u8, 108u8]) {
            Ok(MeshFormat::Stl)
        } else {
            Err(LoadError::UnknownExtension)
        },
    }
}

fn rfind_fn(s: &[u8], start: usize, b: u8) -> (r: usize)
    requires
        start <= s@.len(),
    ensures
        start <= r <= s@.len(),
        r == s@.len() <==> rfind(s@.subrange(start as int, s@.len() as int), b) == -1,
        r < s@.len() ==> r - start == rfind(s@.subrange(start as int, s@.len() as int), b),
{
    let mut k: usize = s.len();
    while k > start
        invariant
            start <= k <= s@.len(),
            forall|m: int| k <= m < s@.len() ==> s@[m] != b,
            rfind(s@.subrange(start as int, s@.len() as int), b) == rfind(s@.subrange(start as int, k as int), b),
        decreases k,
    {
        let ghost sub = s@.subrange(start as int, k as int);
        assert(sub.drop_last() =~= s@.subrange(start as int, k - 1));
        if s[k - 1] == b {
            return k - 1;
        }
        k = k - 1;
    }
    assert(s@.subrange(start as int, k as int).len() == 0);
    s.len()
}

/// Whether `s` from `from` on spells the three-letter word `w`, ignoring
/// ASCII case.
fn matches_word(s: &[u8], from: usize, w: [u8; 3]) -> (r: bool)
    requires
        from <= s@.len(),
    ensures
        r == eq_ignore_case(s@.subrange(from as int, s@.len() as int), w@),
{
    if s.len() - from != 3 {
        return false;
    }
    let mut i: usize = 0;
    while i < 3
        invariant
            from <= s@.len() <= usize::MAX,
            s@.len() - from == 3,
            w@.len() == 3,
            i <= 3,
            forall|m: int| 0 <= m < i ==> ascii_lower(s@[from + m]) == w@[m],
        decreases 3 - i,
    {
        let c = s[from + i];
        let lc: u8 = if 65 <= c && c <= 90 { c + 32 } else { c };
        if lc != w[i] {
            assert(s@.subrange(from as int, s@.len() as int)[i as int] == c);
            return false;
        }
        i = i + 1;
    }
    assert forall|m: int| 0 <= m < w@.len() implies ascii_lower(
        #[trigger] s@.subrange(from as int, s@.len() as int)[m],
    ) == w@[m] by {
        assert(s@.subrange(from as int, s@.len() as int)[m] == s@[from + m]);
    }
    true
}

/// Picks the loader for a file by its extension, ignoring case.
pub fn format_of(path: &str) -> (r: Result<MeshFormat, LoadError>)
    ensures
        r == format_spec(path.spec_bytes()),
{
    let s = path.as_bytes();
    let slash = rfind_fn(s, 0, 47u8);
    assert(s@.subrange(0, s@.len() as int) =~= s@);
    let start: usize = if slash == s.len() { 0 } else { slash + 1 };
    let dot = rfind_fn(s, start, 46u8);
    let ghost name = file_name(s@);
    assert(name =~= s@.subrange(start as int, s@.len() as int));
    if dot == s.len() || dot == start {
        return Err(LoadError::NoExtension);
    }
    assert(name.subrange(dot - start + 1, name.len() as int) =~= s@.subrange(dot + 1, s@.len() as int));
    let obj: [u8; 3] = [111u8, 98u8, 106u8];
    let stl: [u8; 3] = [115u8, 116u8, 108u8];
    assert(obj@ =~= seq![111u8, 98u8, 106u8]);
    assert(stl@ =~= seq![115u8, 116u8, 108u8]);
    if matches_word(s, dot + 1, obj) {
        Ok(MeshFormat::Obj)
    } else if matches_word(s, dot + 1, stl) {
        Ok(MeshFormat::Stl)
    } else {
        Err(LoadError::UnknownExtension)
    }
}

/// The items of the loads that succeeded, in input order.
pub open spec fn loaded<T>(rs: Seq<Result<Vec<T>, LoadError>>) -> Seq<T>
    decreases rs.len(),
{
    if rs.len() == 0 {
        Seq::empty()
    } else {
        loaded(rs.drop_last()) + match rs.last() {
            Ok(v) => v@,
            Err(_) => Seq::empty(),
        }
    }
}

/// Gathers the meshes of every input that loaded; a failed input adds none
/// and does not stop the others.
pub fn collect_loaded<T>(results: Vec<Result<Vec<T>, LoadError>>) -> (q: Vec<T>)
    ensures
        q@ == loaded(results@),
{
    let ghost all = results@;
    let mut rest = results;
    let mut q: Vec<T> = Vec::new();
    let ghost mut done: int = 0;
    while rest.len() > 0
        invariant
            0 <= done <= all.len(),
            rest@ == all.subrange(done, all.len() as int),
            q@ == loaded(all.subrange(0, done)),
        decreases rest@.len(),
    {
        let r = rest.remove(0);
        proof {
            assert(all.subrange(0, done + 1).drop_last() =~= all.subrange(0, done));
            assert(all.subrange(0, done + 1).last() == r);
        }
        match r {
            Ok(mut v) => {
                q.append(&mut v);
            },
            Err(_) => {},
        }
        proof {
            done = done + 1;
            assert(rest@ =~= all.subrange(done, all.len() as int));
        }
    }
    assert(all.subrange(0, done) =~= all);
    q
}

} // verus!
