//! The shape declaration surface: recognized field markers.
//!
//! A field may carry markers produced by a syntax front-end. Two are
//! recognized: `lifecycle`, naming the one field that holds the lifecycle
//! tag, and `depends-on(name, name, ...)`, declaring a tail field together
//! with the sibling fields it is constructed from. Any other marker is
//! ignored. Markers are byte strings; dependency names are the maximal
//! groups of bytes between commas, with spaces ignored, and each must be
//! nonempty for the marker to be recognized.

use vstd::prelude::*;
use vstd::string::StringSliceAdditionalSpecFns;

use crate::bytes::bytes_eq;

verus! {

/// The byte that separates dependency names (an ASCII comma).
pub const SEPARATOR_BYTE: u8 = 44;

/// The byte that is ignored between dependency names (an ASCII space).
pub const PADDING_BYTE: u8 = 32;

/// The byte that closes a `depends-on(...)` marker (an ASCII right paren).
pub const CLOSING_BYTE: u8 = 41;

/// The byte string of the `lifecycle` marker.
pub open spec fn lifecycle_marker() -> Seq<u8> {
    "lifecycle".spec_bytes()
}

/// The bytes that open a `depends-on(...)` marker.
pub open spec fn depends_open() -> Seq<u8> {
    "depends-on(".spec_bytes()
}

/// Whether the marker is the `lifecycle` marker.
pub open spec fn is_lifecycle_marker(m: Seq<u8>) -> bool {
    m == lifecycle_marker()
}

/// The dependency names written in `s`, read left to right: padding bytes
/// are skipped, a separator ends the current name, every other byte extends
/// it. `cur` is the name read so far and `acc` the names already complete.
/// An empty name makes the whole parse fail.
pub open spec fn parse_names(s: Seq<u8>, cur: Seq<u8>, acc: Seq<Seq<u8>>) -> Option<Seq<Seq<u8>>>
    decreases s.len(),
{
    if s.len() == 0 {
        if cur.len() == 0 {
            None
        } else {
            Some(acc.push(cur))
        }
    } else if s[0] == PADDING_BYTE {
        parse_names(s.subrange(1, s.len() as int), cur, acc)
    } else if s[0] == SEPARATOR_BYTE {
        if cur.len() == 0 {
            None
        } else {
            parse_names(s.subrange(1, s.len() as int), Seq::empty(), acc.push(cur))
        }
    } else {
        parse_names(s.subrange(1, s.len() as int), cur.push(s[0]), acc)
    }
}

/// The dependency names declared by a `depends-on(...)` marker, or `None`
/// where the marker is not a well-formed `depends-on` marker.
pub open spec fn depends_marker_names(m: Seq<u8>) -> Option<Seq<Seq<u8>>> {
    let p = depends_open();
    if m.len() > p.len() && m.subrange(0, p.len() as int) == p && m[m.len() - 1] == CLOSING_BYTE {
        parse_names(m.subrange(p.len() as int, m.len() - 1), Seq::empty(), Seq::empty())
    } else {
        None
    }
}

/// Whether a marker is recognized, as the lifecycle marker or as a
/// well-formed `depends-on` marker.
pub open spec fn marker_recognized(m: Seq<u8>) -> bool {
    is_lifecycle_marker(m) || depends_marker_names(m) is Some
}

/// Tests whether a marker is the `lifecycle` marker.
pub fn marker_is_lifecycle(m: &Vec<u8>) -> (r: bool)
    ensures
        r == is_lifecycle_marker(m@),
{
    let lit: Vec<u8> = "lifecycle".as_bytes_vec();
    bytes_eq(m, &lit)
}

/// Reads the dependency names between positions `i` and `end` of `m`,
/// extending the partial name `cur` and the completed names `acc`.
fn parse_names_from(m: &Vec<u8>, i: usize, end: usize, cur: Vec<u8>, acc: Vec<Vec<u8>>) -> (r:
    Option<Vec<Vec<u8>>>)
    requires
        i <= end <= m@.len(),
    ensures
        match r {
            Some(names) => parse_names(m@.subrange(i as int, end as int), cur@, acc.deep_view())
                == Some(names.deep_view()),
            None => parse_names(m@.subrange(i as int, end as int), cur@, acc.deep_view()) is None,
        },
    decreases end - i,
{
    let ghost s = m@.subrange(i as int, end as int);
    if i == end {
        if cur.len() == 0 {
            None
        } else {
            let mut acc = acc;
            let ghost cur_view = cur@;
            let ghost acc_view = acc.deep_view();
            acc.push(cur);
            proof {
                assert(acc.deep_view() =~~= acc_view.push(cur_view));
            }
            Some(acc)
        }
    } else {
        proof {
            assert(s.subrange(1, s.len() as int) =~= m@.subrange(i + 1, end as int));
        }
        let b = m[i];
        assert(b == s[0]);
        if b == PADDING_BYTE {
            parse_names_from(m, i + 1, end, cur, acc)
        } else if b == SEPARATOR_BYTE {
            if cur.len() == 0 {
                None
            } else {
                let mut acc = acc;
                let ghost cur_view = cur@;
                let ghost acc_view = acc.deep_view();
                acc.push(cur);
                proof {
                    assert(acc.deep_view() =~~= acc_view.push(cur_view));
                }
                parse_names_from(m, i + 1, end, Vec::new(), acc)
            }
        } else {
            let mut cur = cur;
            cur.push(b);
            parse_names_from(m, i + 1, end, cur, acc)
        }
    }
}

/// Reads a `depends-on(...)` marker: the dependency names it declares, or
/// `None` where the marker is not a well-formed `depends-on` marker.
pub fn parse_depends_marker(m: &Vec<u8>) -> (r: Option<Vec<Vec<u8>>>)
    ensures
        match r {
            Some(names) => depends_marker_names(m@) == Some(names.deep_view()),
            None => depends_marker_names(m@) is None,
        },
{
    let open: Vec<u8> = "depends-on(".as_bytes_vec();
    if m.len() <= open.len() {
        return None;
    }
    let n: usize = open.len();
    let mut i: usize = 0;
    while i < n
        invariant
            n == open@.len() < m@.len(),
            i <= n,
            open@ == depends_open(),
            forall|k: int| 0 <= k < i ==> m@[k] == open@[k],
        decreases n - i,
    {
        if m[i] != open[i] {
            proof {
                assert(m@.subrange(0, n as int) != depends_open()) by {
                    assert(m@.subrange(0, n as int)[i as int] != open@[i as int]);
                }
            }
            return None;
        }
        i = i + 1;
    }
    proof {
        assert(m@.subrange(0, n as int) =~= depends_open());
    }
    if m[m.len() - 1] != CLOSING_BYTE {
        return None;
    }
    let cur: Vec<u8> = Vec::new();
    let acc: Vec<Vec<u8>> = Vec::new();
    proof {
        assert(cur@ =~= Seq::<u8>::empty());
        assert(acc.deep_view() =~~= Seq::<Seq<u8>>::empty());
    }
    parse_names_from(m, n, m.len() - 1, cur, acc)
}

} // verus!
