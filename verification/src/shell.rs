//! Shell resolution: which executable a session launches, and the short
//! name shown for it.
//!
//! The existence checks themselves are the caller's: this module only
//! decides, from an optional override and the results of those checks,
//! which path wins.

use vstd::prelude::*;

verus! {

use crate::text::{push_char, str_chars};
use vstd::string::StringExecFns;

/// The fixed candidate paths tried, in order, when no override is
/// configured.
pub open spec fn spec_shell_candidates() -> Seq<Seq<char>> {
    seq!["/bin/bash"@, "/usr/bin/bash"@, "/bin/sh"@, "/usr/bin/sh"@]
}

/// The candidate paths as strings, for the caller to test for existence.
pub fn shell_candidates() -> (r: Vec<String>)
    ensures
        r@.map_values(|s: String| s@) == spec_shell_candidates(),
{
    let mut v: Vec<String> = Vec::new();
    v.push(String::from_str("/bin/bash"));
    v.push(String::from_str("/usr/bin/bash"));
    v.push(String::from_str("/bin/sh"));
    v.push(String::from_str("/usr/bin/sh"));
    proof {
        assert(v@.map_values(|s: String| s@) =~= spec_shell_candidates());
    }
    v
}

/// The shell a session launches: the configured override when one is set;
/// otherwise the first candidate whose existence check succeeded; otherwise
/// the bare name `bash`, left to path lookup.
pub open spec fn spec_choose_shell(configured: Option<Seq<char>>, exists: Seq<bool>) -> Seq<char>
    recommends
        exists.len() == spec_shell_candidates().len(),
{
    match configured {
        Option::Some(c) => c,
        Option::None => if exists[0] {
            spec_shell_candidates()[0]
        } else if exists[1] {
            spec_shell_candidates()[1]
        } else if exists[2] {
            spec_shell_candidates()[2]
        } else if exists[3] {
            spec_shell_candidates()[3]
        } else {
            "bash"@
        },
    }
}

/// Picks the shell. `exists` holds, per candidate of
/// [`shell_candidates`], whether the caller found that path on disk.
pub fn choose_shell(configured: Option<String>, exists: &Vec<bool>) -> (r: String)
    requires
        exists@.len() == 4,
    ensures
        r@ == spec_choose_shell(
            match configured {
                Option::Some(c) => Option::Some(c@),
                Option::None => Option::None,
            },
            exists@,
        ),
{
    match configured {
        Some(c) => c,
        None => {
            if exists[0] {
                String::from_str("/bin/bash")
            } else if exists[1] {
                String::from_str("/usr/bin/bash")
            } else if exists[2] {
                String::from_str("/bin/sh")
            } else if exists[3] {
                String::from_str("/usr/bin/sh")
            } else {
                String::from_str("bash")
            }
        },
    }
}

/// Whether the path ends in a bare `.` component.
pub open spec fn ends_in_dot_component(s: Seq<char>) -> bool {
    s.len() > 0 && s.last() == '.' && (s.len() == 1 || s[s.len() - 2] == '/')
}

/// The path with trailing slashes and trailing bare `.` components
/// removed: the file name ignores both.
pub open spec fn drop_trailing_markers(s: Seq<char>) -> Seq<char>
    decreases s.len(),
{
    if s.len() > 0 && s.last() == '/' {
        drop_trailing_markers(s.drop_last())
    } else if ends_in_dot_component(s) {
        drop_trailing_markers(s.drop_last())
    } else {
        s
    }
}

/// The maximal suffix holding no slash: the last path component.
pub open spec fn last_component(s: Seq<char>) -> Seq<char>
    decreases s.len(),
{
    if s.len() == 0 || s.last() == '/' {
        Seq::empty()
    } else {
        last_component(s.drop_last()).push(s.last())
    }
}

/// The display name of a shell path: the last path component, with
/// trailing slashes and bare `.` components ignored; `shell` when that
/// leaves nothing or a parent marker (`..`).
pub open spec fn spec_shell_name(path: Seq<char>) -> Seq<char> {
    let base = last_component(drop_trailing_markers(path));
    if base.len() == 0 || base == ".."@ {
        "shell"@
    } else {
        base
    }
}

/// Index form of [`last_component`].
proof fn lemma_last_component_index(s: Seq<char>, k: int)
    requires
        0 <= k <= s.len(),
        forall|i: int| k <= i < s.len() ==> #[trigger] s[i] != '/',
        k == 0 || s[k - 1] == '/',
    ensures
        last_component(s) == s.skip(k),
    decreases s.len(),
{
    if k == s.len() {
        assert(s.skip(k) =~= Seq::<char>::empty());
    } else {
        let d = s.drop_last();
        assert(forall|i: int| k <= i < d.len() ==> #[trigger] d[i] != '/') by {
            assert(forall|i: int| 0 <= i < d.len() ==> #[trigger] d[i] == s[i]);
        }
        lemma_last_component_index(d, k);
        assert(d.skip(k).push(s.last()) =~= s.skip(k));
    }
}

/// The short name the title line shows for a shell path.
pub fn shell_name_from_path(shell: &str) -> (r: String)
    ensures
        r@ == spec_shell_name(shell@),
{
    let chars = str_chars(shell);
    let n = chars.len();

    let mut end = n;
    proof {
        assert(shell@.take(n as int) =~= shell@);
    }
    while end > 0 && (chars[end - 1] == '/' || (chars[end - 1] == '.' && (end == 1 || chars[end
        - 2] == '/')))
        invariant
            end <= n,
            n == chars@.len(),
            chars@ == shell@,
            drop_trailing_markers(shell@) == drop_trailing_markers(shell@.take(end as int)),
        decreases end,
    {
        proof {
            let t = shell@.take(end as int);
            assert(t.last() == shell@[end - 1]);
            assert(end >= 2 ==> t[end - 2] == shell@[end - 2]);
            assert(t.drop_last() =~= shell@.take(end - 1));
            assert(drop_trailing_markers(t) == drop_trailing_markers(shell@.take(end - 1)));
        }
        end -= 1;
    }
    proof {
        let t = shell@.take(end as int);
        if end > 0 {
            assert(t.last() == shell@[end - 1]);
            assert(end >= 2 ==> t[end - 2] == shell@[end - 2]);
        }
        assert(drop_trailing_markers(t) == t);
    }

    let mut start = end;
    while start > 0 && chars[start - 1] != '/'
        invariant
            start <= end <= n,
            n == chars@.len(),
            chars@ == shell@,
            forall|i: int| start <= i < end ==> #[trigger] chars@[i] != '/',
        decreases start,
    {
        start -= 1;
    }
    proof {
        let t = shell@.take(end as int);
        assert(forall|i: int| start <= i < t.len() ==> #[trigger] t[i] != '/') by {
            assert(forall|i: int| 0 <= i < t.len() ==> #[trigger] t[i] == shell@[i]);
        }
        assert(start == 0 || t[start - 1] == '/');
        lemma_last_component_index(t, start as int);
        assert(t.skip(start as int) =~= shell@.subrange(start as int, end as int));
    }
    let ghost base = last_component(drop_trailing_markers(shell@));

    let len = end - start;
    let dotdot = len == 2 && chars[start] == '.' && chars[start + 1] == '.';
    proof {
        reveal_strlit("..");
        assert(".."@.len() == 2 && ".."@[0] == '.' && ".."@[1] == '.');
        if dotdot {
            assert(base =~= ".."@);
        }
        if !dotdot && base == ".."@ {
            assert(base[0] == shell@[start as int]);
            assert(base[1] == shell@[start + 1]);
            assert(false);
        }
    }
    if len == 0 || dotdot {
        String::from_str("shell")
    } else {
        let mut out = String::new();
        for i in start..end
            invariant
                start <= i <= end <= n,
                n == chars@.len(),
                chars@ == shell@,
                base == shell@.subrange(start as int, end as int),
                out@ =~= shell@.subrange(start as int, i as int),
        {
            push_char(&mut out, chars[i]);
            proof {
                assert(shell@.subrange(start as int, i + 1) =~= shell@.subrange(
                    start as int,
                    i as int,
                ).push(shell@[i as int]));
            }
        }
        proof {
            assert(out@ =~= base);
        }
        out
    }
}

} // verus!
