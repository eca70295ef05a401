//! The on-disk layout of a save: from a save root path, the sibling
//! player-data directory (root's name with `_player` appended) and the
//! `isoregiondata` child directory. Paths are handled as plain strings
//! with `/` as the separator; construction is purely syntactic and never
//! touches the filesystem.

use vstd::prelude::*;

verus! {

/// `s` with every trailing `/` removed.
pub open spec fn strip_trailing_seps(s: Seq<char>) -> Seq<char>
    decreases s.len(),
{
    if s.len() > 0 && s.last() == '/' {
        strip_trailing_seps(s.drop_last())
    } else {
        s
    }
}

/// Index of the last occurrence of `c` in `s`, or `None` when `c` does
/// not occur in `s`.
pub open spec fn find_last(s: Seq<char>, c: char) -> Option<int>
    decreases s.len(),
{
    if s.len() == 0 {
        None
    } else if s.last() == c {
        Some(s.len() - 1)
    } else {
        find_last(s.drop_last(), c)
    }
}

/// `find_last` returns the largest index holding `c`, and `None` exactly
/// when no index holds `c`.
pub proof fn lemma_find_last(s: Seq<char>, c: char)
    ensures
        match find_last(s, c) {
            Some(i) => 0 <= i < s.len() && s[i] == c && (forall|j: int|
                i < j < s.len() ==> s[j] != c),
            None => forall|j: int| 0 <= j < s.len() ==> s[j] != c,
        },
    decreases s.len(),
{
    if s.len() > 0 && s.last() != c {
        lemma_find_last(s.drop_last(), c);
        let t = s.drop_last();
        match find_last(t, c) {
            Some(i) => {
                assert(s[i] == t[i]);
                assert forall|j: int| i < j < s.len() implies s[j] != c by {
                    if j < s.len() - 1 {
                        assert(s[j] == t[j]);
                    }
                }
            },
            None => {
                assert forall|j: int| 0 <= j < s.len() implies s[j] != c by {
                    if j < s.len() - 1 {
                        assert(s[j] == t[j]);
                    }
                }
            },
        }
    }
}

/// `s` with trailing separators and trailing `.` components removed, as
/// std's path handling skips both when naming a path's final component: a
/// trailing character is dropped while it is a `/`, or a `.` that stands
/// alone in its component (the whole path, or preceded by a `/`).
pub open spec fn resolve_base(s: Seq<char>) -> Seq<char>
    decreases s.len(),
{
    if s.len() == 0 {
        s
    } else if s.last() == '/' {
        resolve_base(s.drop_last())
    } else if s.last() == '.' && (s.len() == 1 || s[s.len() - 2] == '/') {
        resolve_base(s.drop_last())
    } else {
        s
    }
}

/// The final path component of `s`: what follows the last `/` once
/// trailing separators and `.` components are stripped. Empty exactly
/// when nothing remains.
pub open spec fn file_name_of(s: Seq<char>) -> Seq<char> {
    let t = resolve_base(s);
    match find_last(t, '/') {
        None => t,
        Some(i) => t.subrange(i + 1, t.len() as int),
    }
}

/// Everything up to and including the last `/` once trailing separators
/// and `.` components are stripped; empty when the path is a bare name.
pub open spec fn dir_prefix_of(s: Seq<char>) -> Seq<char> {
    let t = resolve_base(s);
    match find_last(t, '/') {
        None => Seq::empty(),
        Some(i) => t.subrange(0, i + 1),
    }
}

/// `s` names a final path component: once trailing separators and `.`
/// components are stripped, something remains and it is not the parent
/// marker `..`.
pub open spec fn has_file_name(s: Seq<char>) -> bool {
    file_name_of(s).len() > 0 && file_name_of(s) != seq!['.', '.']
}

/// The three on-disk locations a save-modification pass works on, all
/// derived from the save's root directory path.
#[derive(Clone, Debug)]
pub struct SavePaths {
    pub root_path: String,
    pub player_path: String,
    pub iso_region_path: String,
}

impl SavePaths {
    /// Derives the save's layout from its root path: the player-data path
    /// is the root's sibling whose name is the root's final component with
    /// `_player` appended, and the iso-region path is the root's
    /// `isoregiondata` child. Returns `None` exactly when the root path
    /// has no final component: it is empty or separators and `.`
    /// components alone, or its final component is the parent marker `..`.
    pub fn new(root_path: String) -> (r: Option<SavePaths>)
        ensures
            match r {
                None => !has_file_name(root_path@),
                Some(p) => {
                    &&& has_file_name(root_path@)
                    &&& p.root_path@ == root_path@
                    &&& p.player_path@ == dir_prefix_of(root_path@) + file_name_of(root_path@)
                        + "_player"@
                    &&& p.iso_region_path@ == strip_trailing_seps(root_path@) + "/isoregiondata"@
                },
            },
    {
        let s: &str = root_path.as_str();
        let n: usize = s.unicode_len();
        let mut m0: usize = n;
        proof {
            assert(s@.subrange(0, n as int) =~= s@);
        }
        while m0 > 0 && s.get_char(m0 - 1) == '/'
            invariant
                m0 <= n,
                n == s@.len(),
                strip_trailing_seps(s@) == strip_trailing_seps(s@.subrange(0, m0 as int)),
            decreases m0,
        {
            proof {
                assert(s@.subrange(0, m0 as int).drop_last() =~= s@.subrange(0, m0 - 1));
            }
            m0 = m0 - 1;
        }
        let ghost t0 = strip_trailing_seps(s@);
        proof {
            assert(t0 =~= s@.subrange(0, m0 as int));
        }
        let mut m: usize = n;
        while m > 0 && (s.get_char(m - 1) == '/' || (s.get_char(m - 1) == '.' && (m == 1
            || s.get_char(m - 2) == '/')))
            invariant
                m <= n,
                n == s@.len(),
                resolve_base(s@) == resolve_base(s@.subrange(0, m as int)),
            decreases m,
        {
            proof {
                assert(s@.subrange(0, m as int).drop_last() =~= s@.subrange(0, m - 1));
                assert(s@.subrange(0, m as int).last() == s@[m - 1]);
                if m >= 2 {
                    assert(s@.subrange(0, m as int)[m - 2] == s@[m - 2]);
                }
            }
            m = m - 1;
        }
        let ghost t = resolve_base(s@);
        proof {
            if m > 0 {
                assert(s@.subrange(0, m as int).last() == s@[m - 1]);
                if m >= 2 {
                    assert(s@.subrange(0, m as int)[m - 2] == s@[m - 2]);
                }
            }
            assert(t =~= s@.subrange(0, m as int));
        }
        if m == 0 {
            return None;
        }
        let mut k: usize = m;
        while k > 0 && s.get_char(k - 1) != '/'
            invariant
                k <= m <= n,
                n == s@.len(),
                forall|j: int| k <= j < m ==> s@[j] != '/',
            decreases k,
        {
            k = k - 1;
        }
        proof {
            lemma_find_last(t, '/');
            if k > 0 {
                assert(t[k - 1] == '/');
                if let Some(i) = find_last(t, '/') {
                    assert(i == k - 1);
                } else {
                    assert(false);
                }
                assert(t.subrange(0, k as int) =~= s@.subrange(0, k as int));
                assert(t.subrange(k as int, t.len() as int) =~= s@.subrange(k as int, m as int));
            } else {
                if let Some(i) = find_last(t, '/') {
                    assert(t[i] != '/');
                    assert(false);
                }
                assert(t =~= s@.subrange(0, m as int));
            }
        }
        if m - k == 2 && s.get_char(k) == '.' && s.get_char(k + 1) == '.' {
            proof {
                assert(file_name_of(s@) =~= seq!['.', '.']);
            }
            return None;
        }
        proof {
            assert(file_name_of(s@)[0] == s@[k as int]);
            if file_name_of(s@) == seq!['.', '.'] {
                assert(file_name_of(s@)[1] == s@[k + 1]);
                assert(false);
            }
        }
        let dir: &str = s.substring_char(0, k);
        let name: &str = s.substring_char(k, m);
        let stripped: &str = s.substring_char(0, m0);
        let mut player: String = String::from_str(dir);
        player.append(name);
        player.append("_player");
        let mut iso: String = String::from_str(stripped);
        iso.append("/isoregiondata");
        proof {
            if k == 0 {
                assert(dir_prefix_of(s@) =~= dir@);
            }
        }
        Some(SavePaths { root_path, player_path: player, iso_region_path: iso })
    }
}

} // verus!
