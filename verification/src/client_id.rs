//! Reading a peer's client name: which clients take transactions that pay
//! nothing.

use vstd::prelude::*;

verus! {

/// The name that the clients in question start with: `Parity/v`.
pub open spec fn prefix() -> Seq<u8> {
    seq![0x50u8, 0x61u8, 0x72u8, 0x69u8, 0x74u8, 0x79u8, 0x2fu8, 0x76u8]
}

pub open spec fn is_digit(b: u8) -> bool {
    0x30 <= b <= 0x39
}

pub open spec fn all_digits(s: Seq<u8>) -> bool {
    forall|i: int| 0 <= i < s.len() ==> is_digit(#[trigger] s[i])
}

pub open spec fn no_dot(s: Seq<u8>) -> bool {
    forall|i: int| 0 <= i < s.len() ==> #[trigger] s[i] != 0x2e
}

/// The number that decimal digits stand for.
pub open spec fn digits_value(s: Seq<u8>) -> nat
    decreases s.len(),
{
    if s.len() == 0 {
        0
    } else {
        digits_value(s.drop_last()) * 10 + (s.last() - 0x30) as nat
    }
}

/// The number that a text stands for: decimal digits, at least one, after
/// at most one plus sign, and no more than fits in 32 bits.
pub open spec fn parsed_u32(s: Seq<u8>) -> Option<u32> {
    let t = if s.len() > 0 && s[0] == 0x2b {
        s.drop_first()
    } else {
        s
    };
    if t.len() > 0 && all_digits(t) && digits_value(t) <= u32::MAX {
        Some(digits_value(t) as u32)
    } else {
        None
    }
}

/// Whether a version is one from which on transactions that pay nothing
/// are taken: 1.6 or later.
pub open spec fn new_enough(major: u32, minor: u32) -> bool {
    major > 1 || (major == 1 && minor >= 6)
}

/// Whether a client name has the shape `Parity/v<major>.<minor>`, with the
/// first dot at `i` and the name or the minor version ending at `j`, and
/// names a version that is new enough.
pub open spec fn shape(client: Seq<u8>, i: int, j: int) -> bool {
    &&& 8 <= i < j <= client.len()
    &&& client.subrange(0, 8) == prefix()
    &&& client[i] == 0x2e
    &&& no_dot(client.subrange(8, i))
    &&& no_dot(client.subrange(i + 1, j))
    &&& j == client.len() || client[j] == 0x2e
    &&& parsed_u32(client.subrange(8, i)) is Some
    &&& parsed_u32(client.subrange(i + 1, j)) is Some
    &&& new_enough(parsed_u32(client.subrange(8, i))->0, parsed_u32(client.subrange(i + 1, j))->0)
}

/// Whether a client of the given name takes transactions that pay nothing.
pub open spec fn spec_accepts_service_transaction(client: Seq<u8>) -> bool {
    exists|i: int, j: int| shape(client, i, j)
}

/// A longer run of digits stands for no smaller a number.
proof fn lemma_value_grows(s: Seq<u8>, k: int)
    requires
        0 <= k <= s.len(),
        all_digits(s),
    ensures
        digits_value(s.subrange(0, k)) <= digits_value(s),
    decreases s.len(),
{
    if k < s.len() {
        assert(s.drop_last().subrange(0, k) =~= s.subrange(0, k));
        assert forall|i: int| 0 <= i < s.drop_last().len() implies is_digit(
            #[trigger] s.drop_last()[i],
        ) by {
            assert(s.drop_last()[i] == s[i]);
        }
        lemma_value_grows(s.drop_last(), k);
        assert(is_digit(s[s.len() - 1]));
    } else {
        assert(s.subrange(0, k) =~= s);
    }
}

/// The end of the run of bytes other than a dot that starts at `from`.
fn run_end(s: &[u8], from: usize) -> (r: usize)
    requires
        from <= s@.len(),
    ensures
        from <= r <= s@.len(),
        no_dot(s@.subrange(from as int, r as int)),
        r == s@.len() || s@[r as int] == 0x2e,
{
    let mut i: usize = from;
    while i < s.len() && s[i] != 0x2e
        invariant
            from <= i <= s@.len(),
            no_dot(s@.subrange(from as int, i as int)),
        decreases s@.len() - i,
    {
        i += 1;
        assert forall|k: int| 0 <= k < i - from implies #[trigger] s@.subrange(
            from as int,
            i as int,
        )[k] != 0x2e by {
            if k < i - from - 1 {
                assert(s@.subrange(from as int, i - 1)[k] == s@[from + k]);
            }
        }
    }
    i
}

/// Reads the number that the bytes from `from` up to `to` stand for.
fn parse_u32(s: &[u8], from: usize, to: usize) -> (r: Option<u32>)
    requires
        from <= to <= s@.len(),
    ensures
        r == parsed_u32(s@.subrange(from as int, to as int)),
{
    let ghost whole = s@.subrange(from as int, to as int);
    let mut start: usize = from;
    if from < to && s[from] == 0x2b {
        start = from + 1;
    }
    let ghost t = s@.subrange(start as int, to as int);
    proof {
        if start == from {
            assert(t =~= whole);
        } else {
            assert(whole[0] == 0x2b);
            assert(t =~= whole.drop_first());
        }
    }
    if start == to {
        return None;
    }
    let mut acc: u64 = 0;
    let mut i: usize = start;
    while i < to
        invariant
            start <= i <= to,
            from <= start,
            to <= s@.len(),
            whole == s@.subrange(from as int, to as int),
            t == s@.subrange(start as int, to as int),
            t == if whole.len() > 0 && whole[0] == 0x2b {
                whole.drop_first()
            } else {
                whole
            },
            all_digits(t.subrange(0, i - start)),
            acc == digits_value(t.subrange(0, i - start)),
            acc <= u32::MAX,
        decreases to - i,
    {
        let b = s[i];
        if b < 0x30 || b > 0x39 {
            proof {
                assert(t[i - start] == b);
                assert(!is_digit(t[i - start]));
            }
            return None;
        }
        proof {
            assert(t.subrange(0, i + 1 - start).drop_last() =~= t.subrange(0, i - start));
            assert(t.subrange(0, i + 1 - start).last() == b);
            assert forall|k: int| 0 <= k < i + 1 - start implies is_digit(
                #[trigger] t.subrange(0, i + 1 - start)[k],
            ) by {
                if k < i - start {
                    assert(t.subrange(0, i - start)[k] == t[k]);
                }
            }
        }
        let next: u64 = acc * 10 + (b - 0x30) as u64;
        if next > 0xffff_ffff {
            proof {
                if all_digits(t) {
                    lemma_value_grows(t, i + 1 - start);
                }
            }
            return None;
        }
        acc = next;
        i += 1;
    }
    proof {
        assert(t.subrange(0, to - start) =~= t);
    }
    Some(acc as u32)
}

/// Whether a client of the given name takes transactions that pay nothing:
/// its name is `Parity/v` and a version from 1.6 on, given as two whole
/// numbers with a dot between them; what follows another dot is not read.
pub fn accepts_service_transaction(client: &[u8]) -> (r: bool)
    ensures
        r == spec_accepts_service_transaction(client@),
{
    let n = client.len();
    if n < 8 || client[0] != 0x50 || client[1] != 0x61 || client[2] != 0x72 || client[3] != 0x69
        || client[4] != 0x74 || client[5] != 0x79 || client[6] != 0x2f || client[7] != 0x76 {
        proof {
            assert forall|i: int, j: int| !shape(client@, i, j) by {
                if shape(client@, i, j) {
                    let p = client@.subrange(0, 8);
                    assert(p[0] == client@[0] && p[1] == client@[1] && p[2] == client@[2] && p[3]
                        == client@[3] && p[4] == client@[4] && p[5] == client@[5] && p[6]
                        == client@[6] && p[7] == client@[7]);
                }
            }
        }
        return false;
    }
    assert(client@.subrange(0, 8) =~= prefix());
    let i = run_end(client, 8);
    if i == n {
        proof {
            assert forall|a: int, b: int| !shape(client@, a, b) by {
                if shape(client@, a, b) {
                    assert(client@.subrange(8, i as int)[a - 8] == client@[a]);
                }
            }
        }
        return false;
    }
    let j = run_end(client, i + 1);
    proof {
        assert forall|a: int, b: int| shape(client@, a, b) implies a == i && b == j by {
            if a < i {
                assert(client@.subrange(8, i as int)[a - 8] == client@[a]);
            }
            if a > i {
                assert(client@.subrange(8, a)[i - 8] == client@[i as int]);
            }
            if a == i {
                if b < j {
                    assert(client@.subrange(i + 1, j as int)[b - i - 1] == client@[b]);
                }
                if b > j {
                    assert(client@.subrange(i + 1, b)[j - i - 1] == client@[j as int]);
                }
            }
        }
    }
    if j == i + 1 {
        proof {
            assert(client@.subrange(i + 1, j as int).len() == 0);
            assert(parsed_u32(client@.subrange(i + 1, j as int)) is None);
        }
        return false;
    }
    match (parse_u32(client, 8, i), parse_u32(client, i + 1, j)) {
        (Some(major), Some(minor)) => {
            let r = major > 1 || (major == 1 && minor >= 6);
            proof {
                if r {
                    assert(shape(client@, i as int, j as int));
                }
            }
            r
        },
        _ => false,
    }
}

} // verus!
