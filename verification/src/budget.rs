//! How much is decoded at once: threads, and a budget for the memory of the decodes in flight.

use crate::media::{Kind, Source, SourceView};
use vstd::prelude::*;

verus! {

/// Memory that decodes may hold at once, about 1.1 GB.
pub const DECODE_CAP: usize = 1_100_000_000;

/// What a decode is taken to need where its dimensions cannot be read.
pub const UNKNOWN_DECODE: usize = 8_388_608;

/// Caps the memory of the decodes in flight. A single decode that is too large for the budget may
/// still go ahead alone.
#[derive(Clone, Copy, PartialEq, Eq, Structural, Debug)]
pub struct DecodeBudget {
    pub used: usize,
    pub cap: usize,
}

/// Whether a decode of so many bytes may go ahead.
pub open spec fn admits(b: DecodeBudget, bytes: usize) -> bool {
    b.used == 0 || b.used + bytes <= b.cap
}

impl DecodeBudget {
    /// An unused budget.
    pub fn new(cap: usize) -> (b: DecodeBudget)
        ensures
            b == (DecodeBudget { used: 0, cap }),
    {
        DecodeBudget { used: 0, cap }
    }

    /// Takes so many bytes out of the budget. Where they do not fit, nothing is taken and the
    /// caller waits for a release.
    pub fn acquire(&mut self, bytes: usize) -> (taken: bool)
        ensures
            taken == admits(*old(self), bytes),
            *final(self) == if taken {
                DecodeBudget { used: (old(self).used + bytes) as usize, ..*old(self) }
            } else {
                *old(self)
            },
            taken ==> final(self).used == old(self).used + bytes,
    {
        if self.used == 0 || (self.used <= self.cap && bytes <= self.cap - self.used) {
            self.used = self.used + bytes;
            true
        } else {
            false
        }
    }

    /// Gives so many bytes back.
    pub fn release(&mut self, bytes: usize)
        ensures
            *final(self) == (DecodeBudget {
                used: (if old(self).used >= bytes {
                    old(self).used - bytes
                } else {
                    0
                }) as usize,
                ..*old(self)
            }),
    {
        self.used = if self.used >= bytes {
            self.used - bytes
        } else {
            0
        };
    }
}

/// What the decodes in flight hold together.
pub open spec fn total(held: Seq<nat>) -> nat
    decreases held.len(),
{
    if held.len() == 0 {
        0
    } else {
        total(held.drop_last()) + held.last()
    }
}

/// The decodes in flight stay within the cap, or all they hold is held by one of them.
pub open spec fn within_budget(held: Seq<nat>, cap: nat) -> bool {
    total(held) <= cap || exists|k: int| 0 <= k < held.len() && #[trigger] held[k] == total(held)
}

/// A decode that is let in keeps the budget: within the cap, or alone with it.
pub proof fn acquiring_keeps_budget(held: Seq<nat>, b: DecodeBudget, bytes: usize)
    requires
        total(held) == b.used,
        admits(b, bytes),
    ensures
        within_budget(held.push(bytes as nat), b.cap as nat),
        total(held.push(bytes as nat)) == b.used + bytes,
{
    let after = held.push(bytes as nat);
    assert(after.drop_last() =~= held);
    if b.used == 0 {
        assert(after[held.len() as int] == total(after));
    }
}

proof fn lemma_total_remove(held: Seq<nat>, k: int)
    requires
        0 <= k < held.len(),
    ensures
        total(held.remove(k)) + held[k] == total(held),
    decreases held.len(),
{
    if k == held.len() - 1 {
        assert(held.remove(k) =~= held.drop_last());
    } else {
        lemma_total_remove(held.drop_last(), k);
        assert(held.remove(k).drop_last() =~= held.drop_last().remove(k));
        assert(held.remove(k).last() == held.last());
    }
}

proof fn lemma_part_of_total(held: Seq<nat>, j: int, k: int)
    requires
        0 <= j < held.len(),
        0 <= k < held.len(),
        j != k,
    ensures
        held[j] + held[k] <= total(held),
    decreases held.len(),
{
    lemma_total_remove(held, j);
    let rest = held.remove(j);
    let at = if k < j {
        k
    } else {
        k - 1
    };
    assert(rest[at] == held[k]);
    lemma_total_remove(rest, at);
}

/// A decode that ends keeps the budget, and what it held is free again.
pub proof fn releasing_keeps_budget(held: Seq<nat>, cap: nat, k: int)
    requires
        0 <= k < held.len(),
        within_budget(held, cap),
    ensures
        within_budget(held.remove(k), cap),
        total(held.remove(k)) == total(held) - held[k],
{
    lemma_total_remove(held, k);
    let rest = held.remove(k);
    if total(held) > cap {
        let j = choose|j: int| 0 <= j < held.len() && #[trigger] held[j] == total(held);
        if j != k {
            lemma_part_of_total(held, j, k);
            if j < k {
                assert(rest[j] == held[j]);
            } else {
                assert(rest[j - 1] == held[j]);
            }
        }
    }
}

/// What decoding a source is taken to need: four bytes per pixel of an image. Everything else is
/// decoded elsewhere, or tiny.
pub open spec fn decode_need(s: SourceView, dims: Option<(u32, u32)>) -> int {
    match s {
        SourceView::Media(Kind::Image, _) => match dims {
            Some((w, h)) => w * h * 4,
            None => UNKNOWN_DECODE as int,
        },
        _ => 0,
    }
}

/// Estimates what decoding a source needs, from the dimensions in its header.
pub fn estimate_decode_bytes(source: &Source, dims: Option<(u32, u32)>) -> (bytes: usize)
    requires
        decode_need(source@, dims) <= usize::MAX,
    ensures
        bytes == decode_need(source@, dims),
{
    match source {
        Source::File(_) => match dims {
            Some((w, h)) => {
                assert(w * h <= w * h * 4) by (nonlinear_arith)
                    requires
                        w >= 0,
                        h >= 0,
                ;
                w as usize * h as usize * 4
            },
            None => UNKNOWN_DECODE,
        },
        _ => 0,
    }
}

/// A number of threads: as many as the machine runs at once, where that is known, but no fewer
/// than `low` and no more than `high`.
pub open spec fn threads(known: Option<usize>, low: usize, high: usize) -> usize {
    let n = match known {
        Some(n) => n,
        None => 4,
    };
    if n < low {
        low
    } else if n > high {
        high
    } else {
        n
    }
}

fn clamp_threads(known: Option<usize>, low: usize, high: usize) -> (n: usize)
    ensures
        n == threads(known, low, high),
{
    let n: usize = match known {
        Some(n) => n,
        None => 4,
    };
    if n < low {
        low
    } else if n > high {
        high
    } else {
        n
    }
}

/// Decode threads.
pub fn decode_workers(known: Option<usize>) -> (n: usize)
    ensures
        n == threads(known, 4, 12),
        4 <= n <= 12,
{
    clamp_threads(known, 4, 12)
}

/// Threads that walk a folder.
pub fn scan_threads(known: Option<usize>) -> (n: usize)
    ensures
        n == threads(known, 4, 16),
        4 <= n <= 16,
{
    clamp_threads(known, 4, 16)
}

} // verus!
