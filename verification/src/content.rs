//! Mapping a served file's path to its content type.

use vstd::prelude::*;

verus! {

/// The index of the dot introducing the extension, scanning left from
/// position `i`: the last `.` of the path, provided no `/` follows it, or
/// `-1`.
pub open spec fn last_marker(path: Seq<char>, i: int) -> int
    decreases i,
{
    if i <= 0 {
        -1
    } else if path[i - 1] == '.' {
        i - 1
    } else if path[i - 1] == '/' {
        -1
    } else {
        last_marker(path, i - 1)
    }
}

/// The extension of a path: the portion of its final slash-separated
/// component after the final dot, if that dot exists and does not begin the
/// component.
pub open spec fn extension_of(path: Seq<char>) -> Option<Seq<char>> {
    let d = last_marker(path, path.len() as int);
    if d > 0 && path[d - 1] != '/' {
        Some(path.subrange(d + 1, path.len() as int))
    } else {
        None
    }
}

/// The content type served for a path, by its extension.
pub open spec fn content_type_spec(path: Seq<char>) -> Seq<char> {
    let e = extension_of(path);
    if e == Some(seq!['h', 't', 'm', 'l']) {
        "text/html"@
    } else if e == Some(seq!['j', 's']) {
        "application/javascript"@
    } else if e == Some(seq!['w', 'a', 's', 'm']) {
        "application/wasm"@
    } else {
        "text/plain"@
    }
}

/// The content type to serve a file under: hypertext, scripts and
/// binary modules by their extension, plain text for everything else.
pub fn get_content_type(path: &str) -> (r: String)
    ensures
        r@ == content_type_spec(path@),
{
    let n = path.unicode_len();
    let ghost pv = path@;
    let mut i = n;
    let mut dot: Option<usize> = None;
    let mut stop = false;
    while i > 0 && !stop
        invariant
            i <= n,
            n == pv.len(),
            pv == path@,
            !stop ==> dot.is_none() && last_marker(pv, n as int) == last_marker(pv, i as int),
            stop ==> match dot {
                Some(d) => last_marker(pv, n as int) == d && d < n,
                None => last_marker(pv, n as int) == -1,
            },
        decreases i,
    {
        let c = path.get_char(i - 1);
        if c == '.' {
            dot = Some(i - 1);
            stop = true;
        } else if c == '/' {
            stop = true;
        }
        i = i - 1;
    }
    match dot {
        Some(d) => {
            if d > 0 && path.get_char(d - 1) != '/' {
                let ghost ext = pv.subrange(d + 1, n as int);
                let len = n - d - 1;
                if len == 4 && path.get_char(d + 1) == 'h' && path.get_char(d + 2) == 't'
                    && path.get_char(d + 3) == 'm' && path.get_char(d + 4) == 'l' {
                    proof {
                        assert(ext =~= seq!['h', 't', 'm', 'l']);
                    }
                    "text/html".to_owned()
                } else if len == 2 && path.get_char(d + 1) == 'j' && path.get_char(d + 2) == 's' {
                    proof {
                        assert(ext =~= seq!['j', 's']);
                    }
                    "application/javascript".to_owned()
                } else if len == 4 && path.get_char(d + 1) == 'w' && path.get_char(d + 2) == 'a'
                    && path.get_char(d + 3) == 's' && path.get_char(d + 4) == 'm' {
                    proof {
                        assert(ext =~= seq!['w', 'a', 's', 'm']);
                    }
                    "application/wasm".to_owned()
                } else {
                    proof {
                        lemma_ext_mismatch(ext);
                    }
                    "text/plain".to_owned()
                }
            } else {
                "text/plain".to_owned()
            }
        },
        None => "text/plain".to_owned(),
    }
}

/// An extension that fails every character test is none of the three served
/// extensions.
proof fn lemma_ext_mismatch(ext: Seq<char>)
    requires
        !(ext.len() == 4 && ext[0] == 'h' && ext[1] == 't' && ext[2] == 'm' && ext[3] == 'l'),
        !(ext.len() == 2 && ext[0] == 'j' && ext[1] == 's'),
        !(ext.len() == 4 && ext[0] == 'w' && ext[1] == 'a' && ext[2] == 's' && ext[3] == 'm'),
    ensures
        ext != seq!['h', 't', 'm', 'l'],
        ext != seq!['j', 's'],
        ext != seq!['w', 'a', 's', 'm'],
{
    if ext == seq!['h', 't', 'm', 'l'] {
        assert(ext.len() == 4 && ext[0] == 'h' && ext[1] == 't' && ext[2] == 'm' && ext[3] == 'l');
    }
    if ext == seq!['j', 's'] {
        assert(ext.len() == 2 && ext[0] == 'j' && ext[1] == 's');
    }
    if ext == seq!['w', 'a', 's', 'm'] {
        assert(ext.len() == 4 && ext[0] == 'w' && ext[1] == 'a' && ext[2] == 's' && ext[3] == 'm');
    }
}

} // verus!
