//! Names of the processes behind foreground windows.

use vstd::prelude::*;
use crate::apply::{eq_ignore_ascii_case, eq_ignore_ascii_case_spec};
use crate::encoding::string_from_chars;
use crate::text::chars_of;

verus! {

pub open spec fn is_path_separator(c: char) -> bool {
    c == '\\' || c == '/'
}

/// The last component of a path: what follows its last `\` or `/` (all of
/// it when it has none).
pub open spec fn last_component(s: Seq<char>) -> Seq<char>
    decreases s.len(),
{
    if s.len() == 0 {
        s
    } else if is_path_separator(s.last()) {
        Seq::<char>::empty()
    } else {
        last_component(s.drop_last()).push(s.last())
    }
}

/// The file name of an executable's path, with `\` or `/` as separators.
pub fn file_name(path: &str) -> (r: String)
    ensures
        r@ == last_component(path@),
{
    let v = chars_of(path);
    let mut start: usize = 0;
    let mut i: usize = 0;
    while i < v.len()
        invariant
            v@ == path@,
            start <= i <= v@.len(),
            last_component(v@.take(i as int)) == v@.subrange(start as int, i as int),
        decreases v.len() - i,
    {
        proof {
            assert(v@.take(i + 1).drop_last() =~= v@.take(i as int));
            assert(v@.take(i + 1).last() == v@[i as int]);
        }
        if v[i] == '\\' || v[i] == '/' {
            start = i + 1;
            assert(v@.subrange(start as int, i + 1) =~= Seq::<char>::empty());
        } else {
            assert(v@.subrange(start as int, i + 1) =~= v@.subrange(start as int, i as int).push(v@[i as int]));
        }
        i = i + 1;
    }
    assert(v@.take(i as int) =~= path@);
    let mut out: Vec<char> = Vec::new();
    let mut k: usize = start;
    while k < v.len()
        invariant
            start <= k <= v@.len(),
            out@ == v@.subrange(start as int, k as int),
        decreases v.len() - k,
    {
        out.push(v[k]);
        k = k + 1;
        assert(out@ =~= v@.subrange(start as int, k as int));
    }
    string_from_chars(out.as_slice())
}

/// Whether a process is the host of Store applications' frames, whose
/// window belongs to another process (compared up to ASCII case).
pub fn is_frame_host(name: &str) -> (r: bool)
    ensures
        r == eq_ignore_ascii_case_spec(name@, "ApplicationFrameHost.exe"@),
{
    eq_ignore_ascii_case(name, "ApplicationFrameHost.exe")
}

} // verus!
