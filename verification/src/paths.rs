//! File names and extensions in Unix paths.
use crate::text;
use vstd::prelude::*;
use vstd::slice::slice_subrange;

verus! {

/// The index behind the last `c` in `s`; 0 where there is none.
pub open spec fn after_last(s: Seq<char>, c: char) -> int
    decreases s.len(),
{
    if s.len() == 0 {
        0
    } else if s.last() == c {
        s.len() as int
    } else {
        after_last(s.drop_last(), c)
    }
}

pub proof fn lemma_after_last(s: Seq<char>, c: char)
    ensures
        0 <= after_last(s, c) <= s.len(),
    decreases s.len(),
{
    if s.len() > 0 && s.last() != c {
        lemma_after_last(s.drop_last(), c);
    }
}

/// The last component of a path. Separators and single dots at the end do not count, and a path
/// that ends in the parent directory, or holds no component at all, has no file name.
pub open spec fn file_name(path: Seq<char>) -> Option<Seq<char>>
    decreases path.len(),
{
    proof {
        lemma_after_last(path, '/');
    }
    let k = after_last(path, '/');
    let name = path.skip(k);
    if name.len() == 0 || name == seq!['.'] {
        if k <= 0 {
            None
        } else {
            file_name(path.take(k - 1))
        }
    } else if name == seq!['.', '.'] {
        None
    } else {
        Some(name)
    }
}

/// What follows the last dot of a path's file name, unless that dot opens the name.
pub open spec fn extension(path: Seq<char>) -> Option<Seq<char>> {
    match file_name(path) {
        Some(name) => {
            let k = after_last(name, '.');
            if k <= 1 {
                None
            } else {
                Some(name.skip(k))
            }
        },
        None => None,
    }
}

fn index_after_last(v: &[char], c: char) -> (r: usize)
    ensures
        r == after_last(v@, c),
        r <= v@.len(),
{
    let mut i: usize = v.len();
    assert(v@.take(v@.len() as int) =~= v@);
    while i > 0 && v[i - 1] != c
        invariant
            i <= v@.len(),
            after_last(v@, c) == after_last(v@.take(i as int), c),
        decreases i,
    {
        assert(v@.take(i as int).drop_last() =~= v@.take(i - 1));
        i -= 1;
    }
    i
}

/// The extension of the file that `path` names.
pub fn path_extension(path: &str) -> (r: Option<String>)
    ensures
        text::opt_text(r) == extension(path@),
{
    let all = text::chars_of(path);
    let mut p = all.as_slice();
    loop
        invariant
            file_name(path@) == file_name(p@),
        decreases p@.len(),
    {
        let k = index_after_last(p, '/');
        let name = slice_subrange(p, k, p.len());
        assert(p@.subrange(k as int, p@.len() as int) =~= p@.skip(k as int));
        if name.len() == 0 || (name.len() == 1 && name[0] == '.') {
            assert(name@.len() == 1 ==> name@ =~= seq!['.']);
            if k == 0 {
                return None;
            }
            assert(p@.subrange(0, k - 1) =~= p@.take(k - 1));
            p = slice_subrange(p, 0, k - 1);
        } else {
            assert(name@ != seq!['.']) by {
                if name@ == seq!['.'] {
                    assert(name@.len() == 1 && name@[0] == '.');
                }
            }
            if name.len() == 2 && name[0] == '.' && name[1] == '.' {
                assert(name@ =~= seq!['.', '.']);
                return None;
            }
            assert(name@ != seq!['.', '.']) by {
                if name@ == seq!['.', '.'] {
                    assert(name@.len() == 2 && name@[0] == '.' && name@[1] == '.');
                }
            }
            let d = index_after_last(name, '.');
            if d <= 1 {
                return None;
            }
            assert(name@.subrange(d as int, name@.len() as int) =~= name@.skip(d as int));
            return Some(text::string_of(slice_subrange(name, d, name.len())));
        }
    }
}

// ---------------------------------------------------------------------------
// Laws
// ---------------------------------------------------------------------------

/// Behind the last occurrence of a character it does not occur again.
pub proof fn law_after_last(a: Seq<char>, c: char, b: Seq<char>)
    requires
        forall|i: int| 0 <= i < b.len() ==> #[trigger] b[i] != c,
    ensures
        after_last(a.push(c) + b, c) == a.len() + 1,
        after_last(b, c) == 0,
    decreases b.len(),
{
    let s = a.push(c) + b;
    if b.len() == 0 {
        assert(s =~= a.push(c));
    } else {
        let t = b.drop_last();
        assert forall|i: int| 0 <= i < t.len() implies #[trigger] t[i] != c by {
            assert(t[i] == b[i]);
        }
        law_after_last(a, c, t);
        assert(s.drop_last() =~= a.push(c) + t);
        assert(s.last() == b[b.len() - 1]);
        assert(b.last() == b[b.len() - 1]);
    }
}

/// No character of `s` is `c`.
pub open spec fn lacks(s: Seq<char>, c: char) -> bool {
    forall|i: int| 0 <= i < s.len() ==> #[trigger] s[i] != c
}

/// A name that is neither empty nor a dot or two is the file name of the path that ends in it, be
/// the directory what it may.
pub proof fn law_file_name(dir: Seq<char>, name: Seq<char>)
    requires
        lacks(name, '/'),
        name.len() > 0,
        name != seq!['.'],
        name != seq!['.', '.'],
    ensures
        file_name(name) == Some(name),
        file_name(dir + seq!['/'] + name) == Some(name),
{
    law_after_last(dir, '/', name);
    assert(name.skip(0) =~= name);
    let path = dir + seq!['/'] + name;
    assert(path =~= dir.push('/') + name);
    assert(path.skip(dir.len() as int + 1) =~= name);
}

/// Separators and single dots at the end of a path do not count, and the parent directory has no
/// file name.
pub proof fn law_end_of_path(path: Seq<char>)
    ensures
        file_name(path + seq!['/']) == file_name(path),
        file_name(path + seq!['/', '.']) == file_name(path),
        file_name(path + seq!['/', '.', '.']) is None,
        file_name(seq!['.', '.']) is None,
        file_name(seq!['.']) is None,
        file_name(Seq::empty()) is None,
{
    let none = Seq::<char>::empty();
    law_after_last(path, '/', none);
    law_after_last(path, '/', seq!['.']);
    law_after_last(path, '/', seq!['.', '.']);
    let a = path + seq!['/'];
    assert(a =~= path.push('/') + none);
    assert(a.skip(path.len() as int + 1) =~= none);
    assert(a.take(path.len() as int) =~= path);
    let b = path + seq!['/', '.'];
    assert(b =~= path.push('/') + seq!['.']);
    assert(b.skip(path.len() as int + 1) =~= seq!['.']);
    assert(b.take(path.len() as int) =~= path);
    let c = path + seq!['/', '.', '.'];
    assert(c =~= path.push('/') + seq!['.', '.']);
    assert(c.skip(path.len() as int + 1) =~= seq!['.', '.']);
    assert(seq!['.', '.'].len() == 2 && seq!['.'].len() == 1);
    assert(seq!['.'].skip(0) =~= seq!['.']);
    assert(seq!['.', '.'].skip(0) =~= seq!['.', '.']);
    assert(none.skip(0) =~= none);
    assert(after_last(none, '/') == 0);
}

/// The extension is what follows the last dot of the file name. A name without a dot has none, and
/// neither has one whose only dot comes first.
pub proof fn law_extension(path: Seq<char>, stem: Seq<char>, ext: Seq<char>)
    requires
        lacks(ext, '.'),
    ensures
        stem.len() > 0 && file_name(path) == Some(stem + seq!['.'] + ext) ==> extension(path)
            == Some(ext),
        file_name(path) == Some(ext) ==> extension(path) is None,
        file_name(path) == Some(seq!['.'] + ext) ==> extension(path) is None,
        file_name(path) is None ==> extension(path) is None,
{
    law_after_last(stem, '.', ext);
    let none = Seq::<char>::empty();
    law_after_last(none, '.', ext);
    let name = stem + seq!['.'] + ext;
    assert(name =~= stem.push('.') + ext);
    assert(name.skip(stem.len() as int + 1) =~= ext);
    assert(seq!['.'] + ext =~= none.push('.') + ext);
}

} // verus!
