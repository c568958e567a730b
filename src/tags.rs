//! Release tags: recognising upstream tag references, sorting them into
//! release channels, and keeping the greatest tag of each channel.
use vstd::prelude::*;
use vstd::utf8::*;
use vstd::string::*;

use crate::text::{contains_bytes, has_infix, starts_with_bytes};

verus! {

broadcast use vstd::utf8::group_utf8_lib;

/// The maturity of a published build.
#[derive(Clone, Copy, Debug, PartialEq, Eq, Structural)]
pub enum ReleaseChannel {
    Stable,
    Nightly,
    Alpha,
    Beta,
    Rc,
}

/// The UTF-8 bytes of a string.
pub open spec fn str_bytes(s: String) -> Seq<u8> {
    encode_utf8(s@)
}

/// The fixed prefix that marks a reference as a tag of this project.
pub open spec fn tag_prefix() -> Seq<u8> {
    "refs/tags/algohub-v".spec_bytes()
}

/// The keyword whose presence in a tag selects a pre-release channel.
pub open spec fn keyword(c: ReleaseChannel) -> Seq<u8> {
    match c {
        ReleaseChannel::Nightly => "nightly".spec_bytes(),
        ReleaseChannel::Alpha => "alpha".spec_bytes(),
        ReleaseChannel::Beta => "beta".spec_bytes(),
        ReleaseChannel::Rc => "rc".spec_bytes(),
        ReleaseChannel::Stable => Seq::empty(),
    }
}

/// The channel of a stripped tag: the first keyword, in the order nightly,
/// alpha, beta, rc, that occurs in it; stable when none does.
pub open spec fn channel_of(tag: Seq<u8>) -> ReleaseChannel {
    if has_infix(tag, keyword(ReleaseChannel::Nightly)) {
        ReleaseChannel::Nightly
    } else if has_infix(tag, keyword(ReleaseChannel::Alpha)) {
        ReleaseChannel::Alpha
    } else if has_infix(tag, keyword(ReleaseChannel::Beta)) {
        ReleaseChannel::Beta
    } else if has_infix(tag, keyword(ReleaseChannel::Rc)) {
        ReleaseChannel::Rc
    } else {
        ReleaseChannel::Stable
    }
}

/// A reference that carries the tag prefix.
pub open spec fn is_release_ref(r: Seq<u8>) -> bool {
    tag_prefix().len() <= r.len() && r.subrange(0, tag_prefix().len() as int) == tag_prefix()
}

/// What remains of a reference once the tag prefix is removed.
pub open spec fn stripped(r: Seq<u8>) -> Seq<u8> {
    r.subrange(tag_prefix().len() as int, r.len() as int)
}

/// A release reference whose stripped tag belongs to channel `c`.
pub open spec fn tagged(r: Seq<u8>, c: ReleaseChannel) -> bool {
    is_release_ref(r) && channel_of(stripped(r)) == c
}

proof fn lemma_prefix_is_ascii()
    ensures
        forall|i: int| 0 <= i < tag_prefix().len() ==> #[trigger] tag_prefix()[i] < 128,
{
    reveal_strlit("refs/tags/algohub-v");
    let cs = "refs/tags/algohub-v"@;
    assert(is_ascii_chars(cs));
    is_ascii_chars_encode_utf8(cs);
}

proof fn lemma_ascii_run_is_boundary(bytes: Seq<u8>, k: int)
    requires
        valid_utf8(bytes),
        0 <= k <= bytes.len(),
        forall|i: int| 0 <= i < k ==> #[trigger] bytes[i] < 128,
    ensures
        is_char_boundary(bytes, k),
    decreases k,
{
    if k > 0 {
        assert(bytes[0] < 128);
        assert(length_of_first_scalar(bytes) == 1);
        let rest = pop_first_scalar(bytes);
        assert forall|i: int| 0 <= i < k - 1 implies #[trigger] rest[i] < 128 by {
            assert(rest[i] == bytes[i + 1]);
        }
        lemma_ascii_run_is_boundary(rest, k - 1);
    }
}

/// The release channel of a stripped tag.
pub fn channel_of_tag(tag: &str) -> (c: ReleaseChannel)
    ensures
        c == channel_of(tag.spec_bytes()),
{
    let b = tag.as_bytes();
    if contains_bytes(b, "nightly".as_bytes()) {
        ReleaseChannel::Nightly
    } else if contains_bytes(b, "alpha".as_bytes()) {
        ReleaseChannel::Alpha
    } else if contains_bytes(b, "beta".as_bytes()) {
        ReleaseChannel::Beta
    } else if contains_bytes(b, "rc".as_bytes()) {
        ReleaseChannel::Rc
    } else {
        ReleaseChannel::Stable
    }
}

/// Recognises a tag reference of this project: its channel and its tag with
/// the prefix removed, or `None` for any other reference.
pub fn classify(r: &str) -> (res: Option<(ReleaseChannel, String)>)
    ensures
        res is None <==> !is_release_ref(r.spec_bytes()),
        res matches Some((c, t)) ==> str_bytes(t) == stripped(r.spec_bytes()) && c == channel_of(
            stripped(r.spec_bytes()),
        ),
{
    let prefix = "refs/tags/algohub-v".as_bytes();
    if !starts_with_bytes(r.as_bytes(), prefix) {
        return None;
    }
    proof {
        let bytes = r.spec_bytes();
        lemma_prefix_is_ascii();
        assert forall|i: int| 0 <= i < prefix@.len() implies #[trigger] bytes[i] < 128 by {
            assert(bytes.subrange(0, prefix@.len() as int)[i] == bytes[i]);
        }
        lemma_ascii_run_is_boundary(bytes, prefix@.len() as int);
    }
    let (_, tail) = r.split_at(prefix.len());
    let tag = tail.to_owned();
    let c = channel_of_tag(tail);
    Some((c, tag))
}

} // verus!
