//! Entry drafts: the content a scratch session hands back, the skeleton it
//! was seeded with, and the test that tells an abandoned draft apart.

use vstd::prelude::*;

use crate::naming::bytes_eq;
use crate::time::Timestamp;

verus! {

/// Whitespace bytes: space, tab, line feed, carriage return.
pub open spec fn is_ws(b: u8) -> bool {
    b == 32 || b == 9 || b == 10 || b == 13
}

/// `s` without its leading whitespace.
pub open spec fn trim_start(s: Seq<u8>) -> Seq<u8>
    decreases s.len(),
{
    if s.len() > 0 && is_ws(s[0]) {
        trim_start(s.skip(1))
    } else {
        s
    }
}

/// `s` without its trailing whitespace.
pub open spec fn trim_end(s: Seq<u8>) -> Seq<u8>
    decreases s.len(),
{
    if s.len() > 0 && is_ws(s.last()) {
        trim_end(s.drop_last())
    } else {
        s
    }
}

/// `s` without leading and trailing whitespace.
pub open spec fn trimmed(s: Seq<u8>) -> Seq<u8> {
    trim_end(trim_start(s))
}

/// Recognises a whitespace byte, exactly as `is_ws` states it.
pub fn ws_byte(b: u8) -> (r: bool)
    ensures
        r == is_ws(b),
{
    b == 32 || b == 9 || b == 10 || b == 13
}

/// Copies `content` without its leading and trailing whitespace, exactly
/// as `trimmed` states it.
pub fn trim_bytes(content: &Vec<u8>) -> (r: Vec<u8>)
    ensures
        r@ == trimmed(content@),
{
    let len = content.len();
    proof {
        assert(content@.skip(0) =~= content@);
    }
    let mut start: usize = 0;
    while start < len && ws_byte(content[start])
        invariant
            start <= len,
            len == content@.len(),
            trim_start(content@) == trim_start(content@.skip(start as int)),
        decreases len - start,
    {
        proof {
            assert(content@.skip(start as int).skip(1) =~= content@.skip(start + 1));
            assert(content@.skip(start as int)[0] == content@[start as int]);
        }
        start = start + 1;
    }
    let ghost t = content@.skip(start as int);
    proof {
        if start < len {
            assert(t[0] == content@[start as int]);
        }
        assert(trim_start(content@) == t);
    }
    let mut end: usize = len;
    proof {
        assert(t.take(len - start) =~= t);
    }
    while end > start && ws_byte(content[end - 1])
        invariant
            start <= end <= len,
            len == content@.len(),
            t == content@.skip(start as int),
            trim_end(t) == trim_end(t.take(end - start)),
        decreases end,
    {
        proof {
            assert(t.take(end - start).last() == content@[end - 1]);
            assert(t.take(end - start).drop_last() =~= t.take(end - 1 - start));
        }
        end = end - 1;
    }
    proof {
        if end > start {
            assert(t.take(end - start).last() == content@[end - 1]);
        }
        assert(trim_end(t) == t.take(end - start));
    }
    let mut out: Vec<u8> = Vec::new();
    let mut i: usize = start;
    while i < end
        invariant
            start <= i <= end <= len,
            len == content@.len(),
            out@ == content@.subrange(start as int, i as int),
        decreases end - i,
    {
        out.push(content[i]);
        proof {
            assert(out@ =~= content@.subrange(start as int, i + 1));
        }
        i = i + 1;
    }
    proof {
        assert(out@ =~= t.take(end - start));
    }
    out
}

/// The scratch-file skeleton seeded at session start: a heading line made
/// from the title when one is given, nothing otherwise.
pub open spec fn skeleton_of(title: Option<Seq<u8>>) -> Seq<u8> {
    match title {
        Option::Some(t) => seq![35u8, 32u8] + t + seq![10u8],
        Option::None => Seq::empty(),
    }
}

/// Builds the skeleton for `title`, exactly as `skeleton_of` states it.
pub fn skeleton(title: &Option<Vec<u8>>) -> (r: Vec<u8>)
    ensures
        r@ == skeleton_of(title.deep_view()),
{
    match title {
        Option::Some(t) => {
            let mut v: Vec<u8> = Vec::new();
            v.push(35);
            v.push(32);
            v.extend_from_slice(t.as_slice());
            v.push(10);
            proof {
                assert(t.deep_view() =~= t@);
                assert(v@ =~= seq![35u8, 32u8] + t@ + seq![10u8]);
            }
            v
        },
        Option::None => Vec::new(),
    }
}

/// The in-progress content of one capture: what the scratch file held when
/// the editor exited, with the optional title and the creation timestamp
/// captured when the session began.
#[derive(Debug, Clone)]
pub struct EntryDraft {
    pub title: Option<Vec<u8>>,
    pub body: Vec<u8>,
    pub created: Timestamp,
}

impl EntryDraft {
    /// A well-formed draft: its creation timestamp is in calendar range.
    pub open spec fn wf(self) -> bool {
        self.created.wf()
    }

    /// An abandoned draft: once the seeded skeleton and surrounding
    /// whitespace are set aside, the user wrote nothing.
    pub open spec fn abandoned(self) -> bool {
        trimmed(self.body@) == trimmed(skeleton_of(self.title.deep_view())) || trimmed(
            self.body@,
        ).len() == 0
    }

    /// Decides whether this draft was abandoned, exactly as `abandoned`
    /// states it.
    pub fn is_abandoned(&self) -> (r: bool)
        ensures
            r == self.abandoned(),
    {
        let body_trimmed = trim_bytes(&self.body);
        if body_trimmed.len() == 0 {
            return true;
        }
        let seeded = skeleton(&self.title);
        let seeded_trimmed = trim_bytes(&seeded);
        bytes_eq(&body_trimmed, &seeded_trimmed)
    }
}

} // verus!
