//! Message identifiers.
//!
//! An identifier joins the priority it was admitted under, a nanosecond
//! timestamp and a sequence counter, and is rendered as
//! `<priority>-<timestamp>-<sequence>` in decimal. It is the join key across
//! the priority index, the persistent record store and the file-blob store;
//! a blob file on disk is named by this text.

use crate::bytes_util::{all_digits, dec_seq, dec_val, find, find_byte, is_digit, lemma_dec_seq_val,
    lemma_find, parse_u128, parse_u32, u128_to_dec, u32_to_dec};
use vstd::prelude::*;

verus! {

/// A message identifier: the join key across the three stores.
#[derive(Debug, Clone, Copy, PartialEq, Eq, Hash, Structural)]
pub struct MsgId {
    pub priority: u32,
    pub timestamp: u128,
    pub sequence: u32,
}

/// The dash byte that separates the three identifier fields.
pub open spec fn dash() -> u8 {
    45
}

impl MsgId {
    /// The canonical text of this identifier.
    pub open spec fn text(self) -> Seq<u8> {
        dec_seq(self.priority as nat) + seq![dash()] + dec_seq(self.timestamp as nat) + seq![
            dash(),
        ] + dec_seq(self.sequence as nat)
    }

    /// The identifier that is delivered first wins: higher priority first,
    /// then the older (smaller) timestamp, then the smaller sequence number.
    pub open spec fn delivered_before(self, other: MsgId) -> bool {
        self.priority > other.priority || (self.priority == other.priority && (self.timestamp
            < other.timestamp || (self.timestamp == other.timestamp && self.sequence
            < other.sequence)))
    }

    /// Renders the canonical `<priority>-<timestamp>-<sequence>` text.
    pub fn to_text(&self) -> (r: Vec<u8>)
        ensures
            r@ == self.text(),
    {
        let mut v = u32_to_dec(self.priority);
        v.push(45u8);
        let t = u128_to_dec(self.timestamp);
        v.extend_from_slice(t.as_slice());
        v.push(45u8);
        let s = u32_to_dec(self.sequence);
        v.extend_from_slice(s.as_slice());
        proof {
            assert(v@ =~= self.text());
        }
        v
    }
}

/// Whether `s` is of the form `<digits>-<digits>-<digits>` with nonempty
/// digit runs whose values fit the identifier's fields.
pub open spec fn valid_id_text(s: Seq<u8>) -> bool {
    let i = find(s, dash());
    let rest = s.skip(i + 1);
    let j = find(rest, dash());
    &&& i >= 1
    &&& j >= 1
    &&& all_digits(s.take(i))
    &&& all_digits(rest.take(j))
    &&& all_digits(rest.skip(j + 1))
    &&& rest.skip(j + 1).len() >= 1
    &&& dec_val(s.take(i)) <= u32::MAX
    &&& dec_val(rest.take(j)) <= u128::MAX
    &&& dec_val(rest.skip(j + 1)) <= u32::MAX
}

/// The identifier that `s` denotes, when `valid_id_text(s)` holds.
pub open spec fn id_of_text(s: Seq<u8>) -> MsgId {
    let i = find(s, dash());
    let rest = s.skip(i + 1);
    let j = find(rest, dash());
    MsgId {
        priority: dec_val(s.take(i)) as u32,
        timestamp: dec_val(rest.take(j)) as u128,
        sequence: dec_val(rest.skip(j + 1)) as u32,
    }
}

/// Reads an identifier back from its text. Succeeds exactly on
/// `<digits>-<digits>-<digits>` with values in range.
pub fn id_from_text(s: &[u8]) -> (r: Option<MsgId>)
    ensures
        match r {
            Some(id) => valid_id_text(s@) && id == id_of_text(s@),
            None => !valid_id_text(s@),
        },
{
    proof {
        lemma_find(s@, dash());
    }
    let i = match find_byte(s, 45u8) {
        Some(i) => i,
        None => {
            return None;
        },
    };
    let n = s.len();
    proof {
        assert(find(s@, dash()) == i as int);
        assert(i < n);
    }
    let head = &s[0..i];
    let rest = &s[i + 1..n];
    proof {
        assert(head@ =~= s@.take(i as int));
        assert(rest@ =~= s@.skip(i as int + 1));
        lemma_find(rest@, dash());
    }
    let j = match find_byte(rest, 45u8) {
        Some(j) => j,
        None => {
            return None;
        },
    };
    let m = rest.len();
    proof {
        assert(find(rest@, dash()) == j as int);
        assert(j < m);
    }
    let mid = &rest[0..j];
    let tail = &rest[j + 1..m];
    proof {
        assert(mid@ =~= rest@.take(j as int));
        assert(tail@ =~= rest@.skip(j as int + 1));
    }
    let priority = match parse_u32(head) {
        Some(p) => p,
        None => {
            return None;
        },
    };
    let timestamp = match parse_u128(mid) {
        Some(t) => t,
        None => {
            return None;
        },
    };
    let sequence = match parse_u32(tail) {
        Some(q) => q,
        None => {
            return None;
        },
    };
    Some(MsgId { priority, timestamp, sequence })
}

/// The canonical text parses back to the identifier it was made from.
pub proof fn lemma_id_text_round_trip(id: MsgId)
    ensures
        valid_id_text(id.text()),
        id_of_text(id.text()) == id,
        all_digits(id.text()) == false || id.text().len() == 0,
        forall|k: int| 0 <= k < id.text().len() ==> is_digit(#[trigger] id.text()[k])
            || id.text()[k] == dash(),
{
    let s = id.text();
    let p = dec_seq(id.priority as nat);
    let t = dec_seq(id.timestamp as nat);
    let q = dec_seq(id.sequence as nat);
    lemma_dec_seq_val(id.priority as nat);
    lemma_dec_seq_val(id.timestamp as nat);
    lemma_dec_seq_val(id.sequence as nat);
    assert forall|k: int| 0 <= k < p.len() implies s[k] != dash() by {
        assert(s[k] == p[k]);
        assert(is_digit(p[k]));
    }
    assert(s[p.len() as int] == dash());
    crate::bytes_util::lemma_find_unique(s, dash(), p.len() as int);
    let rest = s.skip(p.len() as int + 1);
    assert(rest =~= t + seq![dash()] + q);
    assert forall|k: int| 0 <= k < t.len() implies rest[k] != dash() by {
        assert(rest[k] == t[k]);
        assert(is_digit(t[k]));
    }
    assert(rest[t.len() as int] == dash());
    crate::bytes_util::lemma_find_unique(rest, dash(), t.len() as int);
    assert(s.take(p.len() as int) =~= p);
    assert(rest.take(t.len() as int) =~= t);
    assert(rest.skip(t.len() as int + 1) =~= q);
    assert(!all_digits(s)) by {
        assert(s[p.len() as int] == dash());
        assert(!is_digit(dash()));
    }
    assert forall|k: int| 0 <= k < s.len() implies is_digit(#[trigger] s[k]) || s[k] == dash() by {
        if k < p.len() {
            assert(s[k] == p[k]);
        } else if k == p.len() {
        } else if k < p.len() + 1 + t.len() {
            assert(s[k] == t[k - p.len() - 1]);
        } else if k == p.len() + 1 + t.len() {
        } else {
            assert(s[k] == q[k - p.len() - t.len() - 2]);
        }
    }
}

} // verus!
