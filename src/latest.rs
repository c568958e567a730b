//! The greatest tag of each release channel among a list of references.
use vstd::prelude::*;

use crate::tags::{classify, is_release_ref, str_bytes, stripped, tagged, ReleaseChannel};
use crate::text::{lemma_lex_total, lemma_lex_transitive, lex_le, lex_lt, less_bytes};

verus! {

/// The latest known tag of each channel, and whether discovery succeeded.
#[derive(Debug)]
pub struct LatestVersions {
    pub nightly: Option<String>,
    pub stable: Option<String>,
    pub alpha: Option<String>,
    pub beta: Option<String>,
    pub rc: Option<String>,
    pub status: bool,
}

/// The bytes of an optional tag.
pub open spec fn opt_bytes(o: Option<String>) -> Option<Seq<u8>> {
    match o {
        Some(s) => Some(str_bytes(s)),
        None => None,
    }
}

/// The bytes of every reference of a list.
pub open spec fn refs_bytes(refs: Seq<String>) -> Seq<Seq<u8>> {
    refs.map_values(|s: String| str_bytes(s))
}

/// `o` is the greatest stripped tag of channel `c` among `rs`, or `None`
/// when `rs` holds no tag of that channel.
pub open spec fn is_latest(rs: Seq<Seq<u8>>, c: ReleaseChannel, o: Option<Seq<u8>>) -> bool {
    match o {
        None => forall|i: int| 0 <= i < rs.len() ==> !#[trigger] tagged(rs[i], c),
        Some(t) => {
            &&& exists|i: int| 0 <= i < rs.len() && #[trigger] tagged(rs[i], c) && stripped(rs[i]) == t
            &&& forall|i: int|
                0 <= i < rs.len() && #[trigger] tagged(rs[i], c) ==> lex_le(stripped(rs[i]), t)
        },
    }
}

impl LatestVersions {
    /// The slot of a channel.
    pub open spec fn slot(&self, c: ReleaseChannel) -> Option<String> {
        match c {
            ReleaseChannel::Nightly => self.nightly,
            ReleaseChannel::Stable => self.stable,
            ReleaseChannel::Alpha => self.alpha,
            ReleaseChannel::Beta => self.beta,
            ReleaseChannel::Rc => self.rc,
        }
    }

    /// The bytes held in the slot of a channel.
    pub open spec fn slot_bytes(&self, c: ReleaseChannel) -> Option<Seq<u8>> {
        opt_bytes(self.slot(c))
    }

    /// Every slot holds the greatest tag of its channel among `rs`, and the
    /// discovery succeeded.
    pub open spec fn summarises(&self, rs: Seq<Seq<u8>>) -> bool {
        &&& self.status
        &&& forall|c: ReleaseChannel| is_latest(rs, c, #[trigger] self.slot_bytes(c))
    }

    /// No tag known yet, and no failure.
    pub fn new() -> (r: LatestVersions)
        ensures
            r.status,
            forall|c: ReleaseChannel| #[trigger] r.slot(c) is None,
    {
        LatestVersions { nightly: None, stable: None, alpha: None, beta: None, rc: None, status: true }
    }

    /// The outcome of a discovery that could not obtain the tag list: every
    /// slot empty and the status false.
    pub fn failed() -> (r: LatestVersions)
        ensures
            !r.status,
            forall|c: ReleaseChannel| #[trigger] r.slot(c) is None,
    {
        LatestVersions { nightly: None, stable: None, alpha: None, beta: None, rc: None, status: false }
    }
}

impl Default for LatestVersions {
    fn default() -> (r: LatestVersions)
        ensures
            r.status,
            forall|c: ReleaseChannel| #[trigger] r.slot(c) is None,
    {
        LatestVersions::new()
    }
}

/// Keeps the greater of the slot's tag and `t`.
fn offer(slot: &mut Option<String>, t: String)
    ensures
        match *old(slot) {
            None => opt_bytes(*final(slot)) == Some(str_bytes(t)),
            Some(s) => if lex_lt(str_bytes(s), str_bytes(t)) {
                opt_bytes(*final(slot)) == Some(str_bytes(t))
            } else {
                opt_bytes(*final(slot)) == Some(str_bytes(s))
            },
        },
{
    let better = match slot {
        None => true,
        Some(s) => less_bytes(s.as_str().as_bytes(), t.as_str().as_bytes()),
    };
    if better {
        *slot = Some(t);
    }
}

proof fn lemma_latest_step(rs: Seq<Seq<u8>>, r: Seq<u8>, c: ReleaseChannel, o: Option<Seq<u8>>, n: Option<Seq<u8>>)
    requires
        is_latest(rs, c, o),
        tagged(r, c) ==> match o {
            None => n == Some(stripped(r)),
            Some(s) => if lex_lt(s, stripped(r)) { n == Some(stripped(r)) } else { n == o },
        },
        !tagged(r, c) ==> n == o,
    ensures
        is_latest(rs.push(r), c, n),
{
    let rs2 = rs.push(r);
    let k = rs.len() as int;
    assert(rs2[k] == r);
    assert forall|i: int| 0 <= i < k implies rs2[i] == rs[i] by {}
    if tagged(r, c) {
        match o {
            None => {
                assert(tagged(rs2[k], c) && stripped(rs2[k]) == stripped(r));
            },
            Some(s) => {
                if lex_lt(s, stripped(r)) {
                    assert(tagged(rs2[k], c) && stripped(rs2[k]) == stripped(r));
                    assert forall|i: int| 0 <= i < rs2.len() && #[trigger] tagged(rs2[i], c)
                        implies lex_le(stripped(rs2[i]), stripped(r)) by {
                        if i < k {
                            assert(lex_le(stripped(rs[i]), s));
                            if stripped(rs[i]) != s {
                                lemma_lex_transitive(stripped(rs[i]), s, stripped(r));
                            }
                        }
                    }
                } else {
                    let i0 = choose|i: int| 0 <= i < rs.len() && #[trigger] tagged(rs[i], c) && stripped(rs[i]) == s;
                    assert(tagged(rs2[i0], c) && stripped(rs2[i0]) == s);
                    lemma_lex_total(s, stripped(r));
                }
            },
        }
    } else {
        match o {
            None => {},
            Some(s) => {
                let i0 = choose|i: int| 0 <= i < rs.len() && #[trigger] tagged(rs[i], c) && stripped(rs[i]) == s;
                assert(tagged(rs2[i0], c) && stripped(rs2[i0]) == s);
            },
        }
    }
}

/// The greatest tag of each channel among `refs`; references without the tag
/// prefix are ignored.
pub fn aggregate(refs: &Vec<String>) -> (r: LatestVersions)
    ensures
        r.summarises(refs_bytes(refs@)),
{
    let ghost rs = refs_bytes(refs@);
    let mut latest = LatestVersions::new();
    let mut i: usize = 0;
    while i < refs.len()
        invariant
            i <= refs@.len(),
            rs == refs_bytes(refs@),
            latest.summarises(rs.take(i as int)),
        decreases refs@.len() - i,
    {
        let ghost before = latest;
        let item = classify(refs[i].as_str());
        proof {
            assert(str_bytes(refs@[i as int]) == rs[i as int]);
        }
        match item {
            None => {},
            Some((c, t)) => {
                match c {
                    ReleaseChannel::Nightly => offer(&mut latest.nightly, t),
                    ReleaseChannel::Stable => offer(&mut latest.stable, t),
                    ReleaseChannel::Alpha => offer(&mut latest.alpha, t),
                    ReleaseChannel::Beta => offer(&mut latest.beta, t),
                    ReleaseChannel::Rc => offer(&mut latest.rc, t),
                }
            },
        }
        proof {
            assert(rs.take(i + 1) =~= rs.take(i as int).push(rs[i as int]));
            assert forall|c: ReleaseChannel| is_latest(rs.take(i + 1), c, #[trigger] latest.slot_bytes(c)) by {
                lemma_latest_step(rs.take(i as int), rs[i as int], c, before.slot_bytes(c), latest.slot_bytes(c));
            }
        }
        i = i + 1;
    }
    proof {
        assert(rs.take(refs@.len() as int) =~= rs);
    }
    latest
}

/// The outcome of tag discovery: the latest tags of the listed references,
/// or, where no listing could be obtained, the failed outcome.
pub fn latest_from_listing(listing: Option<Vec<String>>) -> (r: LatestVersions)
    ensures
        match listing {
            Some(refs) => r.summarises(refs_bytes(refs@)),
            None => !r.status && forall|c: ReleaseChannel| #[trigger] r.slot(c) is None,
        },
{
    match listing {
        Some(refs) => aggregate(&refs),
        None => LatestVersions::failed(),
    }
}

/// Every tag of channel `c` that `a` holds, `b` holds too.
pub open spec fn covers(a: Seq<Seq<u8>>, b: Seq<Seq<u8>>, c: ReleaseChannel) -> bool {
    forall|i: int|
        0 <= i < a.len() && #[trigger] tagged(a[i], c) ==> exists|j: int|
            0 <= j < b.len() && #[trigger] tagged(b[j], c) && stripped(b[j]) == stripped(a[i])
}

/// Two lists that hold the same tags of a channel have the same latest tag
/// of that channel.
pub proof fn lemma_latest_unique(
    a: Seq<Seq<u8>>,
    b: Seq<Seq<u8>>,
    c: ReleaseChannel,
    x: Option<Seq<u8>>,
    y: Option<Seq<u8>>,
)
    requires
        is_latest(a, c, x),
        is_latest(b, c, y),
        covers(a, b, c),
        covers(b, a, c),
    ensures
        x == y,
{
    match (x, y) {
        (Some(s), Some(t)) => {
            let i = choose|i: int| 0 <= i < a.len() && #[trigger] tagged(a[i], c) && stripped(a[i]) == s;
            let j = choose|j: int| 0 <= j < b.len() && #[trigger] tagged(b[j], c) && stripped(b[j]) == t;
            let j2 = choose|j: int| 0 <= j < b.len() && #[trigger] tagged(b[j], c) && stripped(b[j]) == stripped(a[i]);
            let i2 = choose|i: int| 0 <= i < a.len() && #[trigger] tagged(a[i], c) && stripped(a[i]) == stripped(b[j]);
            assert(lex_le(s, t));
            assert(lex_le(t, s));
            lemma_lex_total(s, t);
        },
        (Some(s), None) => {
            let i = choose|i: int| 0 <= i < a.len() && #[trigger] tagged(a[i], c) && stripped(a[i]) == s;
            assert(tagged(a[i], c));
        },
        (None, Some(t)) => {
            let j = choose|j: int| 0 <= j < b.len() && #[trigger] tagged(b[j], c) && stripped(b[j]) == t;
            assert(tagged(b[j], c));
        },
        (None, None) => {},
    }
}

/// Aggregation does not depend on the order of the references: two lists
/// that are permutations of each other give the same latest tag in every
/// channel.
pub proof fn lemma_aggregate_order_independent(
    a: Seq<String>,
    b: Seq<String>,
    x: LatestVersions,
    y: LatestVersions,
)
    requires
        a.to_multiset() == b.to_multiset(),
        x.summarises(refs_bytes(a)),
        y.summarises(refs_bytes(b)),
    ensures
        x.status == y.status,
        forall|c: ReleaseChannel| #[trigger] x.slot_bytes(c) == y.slot_bytes(c),
{
    broadcast use vstd::seq_lib::group_to_multiset_ensures;

    let ra = refs_bytes(a);
    let rb = refs_bytes(b);
    assert forall|c: ReleaseChannel| #[trigger] x.slot_bytes(c) == y.slot_bytes(c) by {
        assert forall|i: int| 0 <= i < ra.len() && #[trigger] tagged(ra[i], c) implies exists|j: int|
            0 <= j < rb.len() && #[trigger] tagged(rb[j], c) && stripped(rb[j]) == stripped(ra[i]) by {
            assert(a.contains(a[i]));
            assert(a.to_multiset().count(a[i]) > 0);
            assert(b.contains(a[i]));
            let j = choose|j: int| 0 <= j < b.len() && b[j] == a[i];
            assert(rb[j] == ra[i]);
        }
        assert forall|j: int| 0 <= j < rb.len() && #[trigger] tagged(rb[j], c) implies exists|i: int|
            0 <= i < ra.len() && #[trigger] tagged(ra[i], c) && stripped(ra[i]) == stripped(rb[j]) by {
            assert(b.contains(b[j]));
            assert(b.to_multiset().count(b[j]) > 0);
            assert(a.contains(b[j]));
            let i = choose|i: int| 0 <= i < a.len() && a[i] == b[j];
            assert(ra[i] == rb[j]);
        }
        lemma_latest_unique(ra, rb, c, x.slot_bytes(c), y.slot_bytes(c));
    }
}

/// A reference without the tag prefix changes no slot, wherever it stands
/// in the list.
pub proof fn lemma_foreign_ref_ignored(
    refs: Seq<String>,
    k: int,
    r: String,
    x: LatestVersions,
    y: LatestVersions,
)
    requires
        0 <= k <= refs.len(),
        !is_release_ref(str_bytes(r)),
        x.summarises(refs_bytes(refs)),
        y.summarises(refs_bytes(refs.insert(k, r))),
    ensures
        forall|c: ReleaseChannel| #[trigger] x.slot_bytes(c) == y.slot_bytes(c),
{
    let ra = refs_bytes(refs);
    let rb = refs_bytes(refs.insert(k, r));
    assert(rb[k] == str_bytes(r));
    assert forall|c: ReleaseChannel| #[trigger] x.slot_bytes(c) == y.slot_bytes(c) by {
        assert forall|i: int| 0 <= i < ra.len() && #[trigger] tagged(ra[i], c) implies exists|j: int|
            0 <= j < rb.len() && #[trigger] tagged(rb[j], c) && stripped(rb[j]) == stripped(ra[i]) by {
            if i < k {
                assert(rb[i] == ra[i]);
            } else {
                assert(rb[i + 1] == ra[i]);
            }
        }
        assert forall|j: int| 0 <= j < rb.len() && #[trigger] tagged(rb[j], c) implies exists|i: int|
            0 <= i < ra.len() && #[trigger] tagged(ra[i], c) && stripped(ra[i]) == stripped(rb[j]) by {
            if j < k {
                assert(rb[j] == ra[j]);
            } else if j > k {
                assert(rb[j] == ra[j - 1]);
            }
        }
        lemma_latest_unique(ra, rb, c, x.slot_bytes(c), y.slot_bytes(c));
    }
}

} // verus!
