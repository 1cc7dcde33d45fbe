//! Short descriptions of open files of the graphics stack, for diagnostics.
use vstd::prelude::*;
use crate::text::{begins, chars_of, decimal_text, push_number, push_str, starts_with, string_of};

verus! {

/// What kind of open file is asked about.
pub enum FdKind {
    DmaBuf,
    Syncobj(u32),
    File(String),
    Other,
}

/// The description of an open file: none unless it belongs to the graphics stack.
pub open spec fn description(f: FdKind) -> Option<Seq<char>> {
    match f {
        FdKind::DmaBuf => Some("dmabuf"@),
        FdKind::Syncobj(handle) => Some(
            "syncobj(handle="@ + decimal_text(handle as nat) + ")"@,
        ),
        FdKind::File(path) => if begins(path@, "/dev/dri"@) {
            Some(path@)
        } else {
            None
        },
        FdKind::Other => None,
    }
}

pub fn drm_fd_desc(f: &FdKind) -> (r: Option<String>)
    ensures
        match r {
            Some(s) => description(*f) == Some(s@),
            None => description(*f) is None,
        },
{
    match f {
        FdKind::DmaBuf => {
            let v: Vec<char> = chars_of("dmabuf");
            Some(string_of(v.as_slice()))
        },
        FdKind::Syncobj(handle) => {
            let mut v: Vec<char> = chars_of("syncobj(handle=");
            push_number(&mut v, *handle as u64);
            push_str(&mut v, ")");
            Some(string_of(v.as_slice()))
        },
        FdKind::File(path) => {
            let v: Vec<char> = chars_of(path.as_str());
            if starts_with(v.as_slice(), "/dev/dri") {
                Some(string_of(v.as_slice()))
            } else {
                None
            }
        },
        FdKind::Other => None,
    }
}

/// A graphics device is described by its path, a buffer and a fence by what they are, and nothing else
/// is described.
pub proof fn law_only_graphics_described(f: FdKind)
    ensures
        f matches FdKind::File(path) ==> (description(f) is Some <==> begins(path@, "/dev/dri"@)),
        f matches FdKind::File(path) ==> (description(f) matches Some(d) ==> d == path@),
        f is DmaBuf ==> description(f) == Some("dmabuf"@),
        f matches FdKind::Syncobj(handle) ==> (description(f) matches Some(d) && d
            == "syncobj(handle="@ + decimal_text(handle as nat) + ")"@),
        f is Other ==> description(f) is None,
{
}

} // verus!
