//! The snapshot exporter: the process-wide export counter, the derived file
//! name `<DDMMYYYY>_<counter>.DAT`, and the exported text, one line
//! `<client_id>: <balance>` per held client. Writing the file itself is I/O
//! and stays with the caller; everything that decides the file's name and
//! contents is here.

use crate::date::Date;
use crate::date::today;
use crate::decimal::dec_rep;
use crate::decimal::digit_char;
use crate::decimal::lemma_dec_rep_digits;
use crate::decimal::lemma_dec_rep_injective;
use crate::decimal::lemma_dec_rep_len;
use crate::decimal::padded_dec;
use crate::decimal::push_dec;
use crate::decimal::push_padded_dec;
use crate::registry::Registry;
use vstd::prelude::*;

verus! {

/// The process-wide export counter: consumed exactly once per export attempt,
/// whether or not the export later succeeds.
pub struct ExportCounter {
    pub value: u32,
}

impl ExportCounter {
    /// A fresh counter, as the process starts with: the first export is
    /// numbered 0.
    pub fn new() -> (r: ExportCounter)
        ensures
            r.value == 0,
    {
        ExportCounter { value: 0 }
    }

    /// Consumes and returns the next counter value; successive calls return
    /// strictly increasing values.
    pub fn next(&mut self) -> (r: u32)
        requires
            old(self).value < u32::MAX,
        ensures
            r == old(self).value,
            final(self).value == old(self).value + 1,
    {
        let v = self.value;
        self.value = v + 1;
        v
    }
}

/// The date part of a snapshot file name: zero-padded two-digit day and
/// month, four-digit year, and the underscore before the counter.
pub open spec fn date_prefix_chars(d: Date) -> Seq<char> {
    padded_dec(d.day as int, 2) + padded_dec(d.month as int, 2) + padded_dec(d.year as int, 4)
        + seq!['_']
}

/// The full snapshot file name for date `d` and counter `counter`:
/// `<DDMMYYYY>_<counter>.DAT` with the counter unpadded.
pub open spec fn file_name_chars(d: Date, counter: int) -> Seq<char> {
    date_prefix_chars(d) + dec_rep(counter) + seq!['.', 'D', 'A', 'T']
}

/// One snapshot line: `<id>: <balance>` and the terminating newline.
pub open spec fn line_chars(id: int, balance: int) -> Seq<char> {
    dec_rep(id) + seq![':', ' '] + dec_rep(balance) + seq!['\n']
}

/// The full snapshot text for the enumerated `(id, balance)` pairs: exactly
/// one line per pair, in enumeration order.
pub open spec fn snapshot_chars(pairs: Seq<(u32, i64)>) -> Seq<char>
    decreases pairs.len(),
{
    if pairs.len() == 0 {
        Seq::empty()
    } else {
        snapshot_chars(pairs.drop_last()) + line_chars(
            pairs.last().0 as int,
            pairs.last().1 as int,
        )
    }
}

/// Renders the snapshot file name for a given date and counter value.
pub fn file_name_for(d: Date, counter: u32) -> (r: String)
    requires
        d.wf(),
    ensures
        r@ == file_name_chars(d, counter as int),
{
    let mut s = String::new();
    push_padded_dec(&mut s, d.day as u64, 2);
    push_padded_dec(&mut s, d.month as u64, 2);
    push_padded_dec(&mut s, d.year as u64, 4);
    s.append("_");
    push_dec(&mut s, counter as u64);
    s.append(".DAT");
    proof {
        reveal_strlit("_");
        reveal_strlit(".DAT");
        assert(s@ =~= file_name_chars(d, counter as int));
    }
    s
}

/// The name of the next snapshot file: the current local date and the given
/// counter value, or `None` where the clock reports a date that the name
/// format cannot render.
pub fn generate_file_name(counter: u32) -> (r: Option<String>)
    ensures
        r matches Some(s) ==> exists|d: Date| d.wf() && s@ == file_name_chars(d, counter as int),
{
    match today() {
        Some(d) => {
            let s = file_name_for(d, counter);
            proof {
                assert(d.wf() && s@ == file_name_chars(d, counter as int));
            }
            Some(s)
        },
        None => None,
    }
}

/// Renders the snapshot text for the enumerated pairs, one line per pair.
pub fn snapshot_text(pairs: &Vec<(u32, i64)>) -> (r: String)
    requires
        balances_nonneg(pairs@),
    ensures
        r@ == snapshot_chars(pairs@),
{
    let mut s = String::new();
    let mut i: usize = 0;
    let n = pairs.len();
    while i < n
        invariant
            n == pairs@.len(),
            i <= n,
            balances_nonneg(pairs@),
            s@ == snapshot_chars(pairs@.take(i as int)),
        decreases n - i,
    {
        let (id, balance) = pairs[i];
        push_dec(&mut s, id as u64);
        s.append(": ");
        push_dec(&mut s, balance as u64);
        s.append("\n");
        proof {
            reveal_strlit(": ");
            reveal_strlit("\n");
            assert(pairs@.take(i + 1 as int).drop_last() =~= pairs@.take(i as int));
            assert(s@ =~= snapshot_chars(pairs@.take(i + 1 as int)));
        }
        i = i + 1;
    }
    proof {
        assert(pairs@.take(n as int) =~= pairs@);
    }
    s
}

/// The snapshot text of the registry's current state: exactly one line
/// `<id>: <balance>` per held client. The file that a caller writes this text
/// to captures the registry at the moment of the call.
pub fn export_text(registry: &Registry) -> (r: String)
    requires
        registry.wf(),
    ensures
        r@ == snapshot_chars(registry.spec_pairs()),
{
    let pairs = registry.all();
    proof {
        assert forall|i: int| 0 <= i < pairs@.len() implies (#[trigger] pairs@[i]).1 >= 0 by {
            assert(pairs@[i].1 == registry@[i].balance);
        }
    }
    snapshot_text(&pairs)
}

/// How many times `c` occurs in `s`.
pub open spec fn count_char(s: Seq<char>, c: char) -> int
    decreases s.len(),
{
    if s.len() == 0 {
        0
    } else {
        count_char(s.drop_last(), c) + if s.last() == c {
            1int
        } else {
            0int
        }
    }
}

proof fn lemma_count_char_concat(a: Seq<char>, b: Seq<char>, c: char)
    ensures
        count_char(a + b, c) == count_char(a, c) + count_char(b, c),
    decreases b.len(),
{
    if b.len() == 0 {
        assert(a + b =~= a);
    } else {
        assert((a + b).drop_last() =~= a + b.drop_last());
        assert((a + b).last() == b.last());
        lemma_count_char_concat(a, b.drop_last(), c);
    }
}

proof fn lemma_count_single(c: char, t: char)
    ensures
        count_char(seq![c], t) == if c == t {
            1int
        } else {
            0int
        },
{
    assert(count_char(Seq::<char>::empty(), t) == 0);
    assert(seq![c].drop_last() =~= Seq::<char>::empty());
    assert(seq![c].last() == c);
}

proof fn lemma_dec_rep_no_newline(n: int)
    ensures
        count_char(dec_rep(n), '\n') == 0,
    decreases n,
{
    if n < 10 {
        lemma_count_single(digit_char(n), '\n');
        assert(dec_rep(n) == seq![digit_char(n)]);
    } else {
        lemma_dec_rep_no_newline(n / 10);
        lemma_count_single(digit_char(n % 10), '\n');
        lemma_count_char_concat(dec_rep(n / 10), seq![digit_char(n % 10)], '\n');
        assert(dec_rep(n) == dec_rep(n / 10) + seq![digit_char(n % 10)]);
    }
}

/// Each snapshot line ends in exactly one newline.
proof fn lemma_line_one_newline(id: int, balance: int)
    ensures
        count_char(line_chars(id, balance), '\n') == 1,
{
    lemma_dec_rep_no_newline(id);
    lemma_dec_rep_no_newline(balance);
    lemma_count_char_concat(dec_rep(id), seq![':', ' '], '\n');
    lemma_count_char_concat(dec_rep(id) + seq![':', ' '], dec_rep(balance), '\n');
    lemma_count_char_concat(dec_rep(id) + seq![':', ' '] + dec_rep(balance), seq!['\n'], '\n');
    lemma_count_single(':', '\n');
    lemma_count_single('\n', '\n');
    lemma_count_char_concat(seq![':'], seq![' '], '\n');
    lemma_count_single(' ', '\n');
    assert(seq![':'] + seq![' '] =~= seq![':', ' ']);
}

/// The snapshot text holds exactly one line — one newline — per enumerated
/// client: no client is lost and none is written twice.
pub proof fn lemma_snapshot_one_line_per_client(pairs: Seq<(u32, i64)>)
    ensures
        count_char(snapshot_chars(pairs), '\n') == pairs.len(),
    decreases pairs.len(),
{
    if pairs.len() > 0 {
        lemma_snapshot_one_line_per_client(pairs.drop_last());
        lemma_count_char_concat(
            snapshot_chars(pairs.drop_last()),
            line_chars(pairs.last().0 as int, pairs.last().1 as int),
            '\n',
        );
        lemma_line_one_newline(pairs.last().0 as int, pairs.last().1 as int);
    }
}

/// Whether every enumerated balance is non-negative, as the registry keeps
/// them.
pub open spec fn balances_nonneg(pairs: Seq<(u32, i64)>) -> bool {
    forall|i: int| 0 <= i < pairs.len() ==> (#[trigger] pairs[i]).1 >= 0
}

proof fn lemma_line_shape(id: int, balance: int)
    requires
        id >= 0,
        balance >= 0,
    ensures
        line_chars(id, balance).len() == dec_rep(id).len() + 3 + dec_rep(balance).len(),
        line_chars(id, balance).len() >= 5,
        line_chars(id, balance).last() == '\n',
        forall|i: int|
            0 <= i < line_chars(id, balance).len() - 1 ==> #[trigger] line_chars(id, balance)[i]
                != '\n',
        line_chars(id, balance)[dec_rep(id).len() as int] == ':',
        forall|i: int|
            0 <= i < dec_rep(id).len() ==> #[trigger] line_chars(id, balance)[i] == dec_rep(id)[i]
                && line_chars(id, balance)[i] != ':',
        forall|i: int|
            0 <= i < dec_rep(balance).len() ==> #[trigger] dec_rep(balance)[i] == line_chars(
                id,
                balance,
            )[dec_rep(id).len() + 2 + i],
{
    lemma_dec_rep_len(id);
    lemma_dec_rep_len(balance);
    lemma_dec_rep_digits(id);
    lemma_dec_rep_digits(balance);
    let l = line_chars(id, balance);
    let n = dec_rep(id).len() as int;
    let m = dec_rep(balance).len() as int;
    assert forall|i: int| 0 <= i < l.len() - 1 implies #[trigger] l[i] != '\n' by {
        if i < n {
            assert(l[i] == dec_rep(id)[i]);
        } else if i == n {
            assert(l[i] == ':');
        } else if i == n + 1 {
            assert(l[i] == ' ');
        } else {
            assert(l[i] == dec_rep(balance)[i - n - 2]);
        }
    }
    assert forall|i: int| 0 <= i < n implies #[trigger] l[i] == dec_rep(id)[i] && l[i] != ':' by {
        assert(l[i] == dec_rep(id)[i]);
    }
    assert forall|i: int| 0 <= i < m implies #[trigger] dec_rep(balance)[i] == l[n + 2 + i] by {
        assert(l[n + 2 + i] == dec_rep(balance)[i]);
    }
}

proof fn lemma_line_injective(id1: int, b1: int, id2: int, b2: int)
    requires
        id1 >= 0,
        b1 >= 0,
        id2 >= 0,
        b2 >= 0,
        line_chars(id1, b1) == line_chars(id2, b2),
    ensures
        id1 == id2,
        b1 == b2,
{
    lemma_line_shape(id1, b1);
    lemma_line_shape(id2, b2);
    let n1 = dec_rep(id1).len() as int;
    let n2 = dec_rep(id2).len() as int;
    if n1 < n2 {
        assert(line_chars(id1, b1)[n1] == ':');
        assert(line_chars(id2, b2)[n1] != ':');
        assert(false);
    }
    if n2 < n1 {
        assert(line_chars(id2, b2)[n2] == ':');
        assert(line_chars(id1, b1)[n2] != ':');
        assert(false);
    }
    assert forall|i: int| 0 <= i < n1 implies dec_rep(id1)[i] == dec_rep(id2)[i] by {
        assert(line_chars(id1, b1)[i] == dec_rep(id1)[i]);
        assert(line_chars(id2, b2)[i] == dec_rep(id2)[i]);
    }
    assert(dec_rep(id1) =~= dec_rep(id2));
    lemma_dec_rep_injective(id1, id2);
    let m1 = dec_rep(b1).len() as int;
    let m2 = dec_rep(b2).len() as int;
    assert(m1 == m2);
    assert forall|i: int| 0 <= i < m1 implies dec_rep(b1)[i] == dec_rep(b2)[i] by {
        assert(dec_rep(b1)[i] == line_chars(id1, b1)[n1 + 2 + i]);
        assert(dec_rep(b2)[i] == line_chars(id2, b2)[n1 + 2 + i]);
    }
    assert(dec_rep(b1) =~= dec_rep(b2));
    lemma_dec_rep_injective(b1, b2);
}

proof fn lemma_snapshot_shape(pairs: Seq<(u32, i64)>)
    requires
        balances_nonneg(pairs),
        pairs.len() > 0,
    ensures
        snapshot_chars(pairs).len() >= 5,
        snapshot_chars(pairs).last() == '\n',
{
    lemma_line_shape(pairs.last().0 as int, pairs.last().1 as int);
}

/// The snapshot text determines the enumerated pairs: two enumerations that
/// render to the same text hold the same clients with the same balances, in
/// the same order — no entry is lost, duplicated or altered by the rendering.
pub proof fn lemma_snapshot_determines_pairs(p1: Seq<(u32, i64)>, p2: Seq<(u32, i64)>)
    requires
        balances_nonneg(p1),
        balances_nonneg(p2),
        snapshot_chars(p1) == snapshot_chars(p2),
    ensures
        p1 == p2,
    decreases p1.len(),
{
    if p1.len() == 0 {
        if p2.len() > 0 {
            lemma_snapshot_shape(p2);
            assert(false);
        }
        assert(p1 =~= p2);
    } else if p2.len() == 0 {
        lemma_snapshot_shape(p1);
        assert(false);
    } else {
        let t = snapshot_chars(p1);
        let s1 = snapshot_chars(p1.drop_last());
        let l1 = line_chars(p1.last().0 as int, p1.last().1 as int);
        let s2 = snapshot_chars(p2.drop_last());
        let l2 = line_chars(p2.last().0 as int, p2.last().1 as int);
        assert(t == s1 + l1);
        assert(t == s2 + l2);
        assert(balances_nonneg(p1.drop_last()));
        assert(balances_nonneg(p2.drop_last()));
        lemma_line_shape(p1.last().0 as int, p1.last().1 as int);
        lemma_line_shape(p2.last().0 as int, p2.last().1 as int);
        if l1.len() < l2.len() {
            assert(s1.len() > 0);
            assert(p1.drop_last().len() > 0);
            lemma_snapshot_shape(p1.drop_last());
            let j = s1.len() - 1;
            assert(t[j] == s1.last());
            assert(s2.len() + l2.len() == t.len());
            assert(j - s2.len() == l2.len() - l1.len() - 1);
            assert(t[j] == l2[l2.len() - l1.len() - 1]);
            assert(false);
        }
        if l2.len() < l1.len() {
            assert(s2.len() > 0);
            assert(p2.drop_last().len() > 0);
            lemma_snapshot_shape(p2.drop_last());
            let j = s2.len() - 1;
            assert(t[j] == s2.last());
            assert(s1.len() + l1.len() == t.len());
            assert(j - s1.len() == l1.len() - l2.len() - 1);
            assert(t[j] == l1[l1.len() - l2.len() - 1]);
            assert(false);
        }
        assert(s1.len() == s2.len());
        assert forall|i: int| 0 <= i < l1.len() implies l1[i] == l2[i] by {
            assert(t[s1.len() + i] == l1[i]);
            assert(t[s1.len() + i] == l2[i]);
        }
        assert(l1 =~= l2);
        lemma_line_injective(
            p1.last().0 as int,
            p1.last().1 as int,
            p2.last().0 as int,
            p2.last().1 as int,
        );
        assert(p1.last() == p2.last());
        assert forall|i: int| 0 <= i < s1.len() implies s1[i] == s2[i] by {
            assert(t[i] == s1[i]);
            assert(t[i] == s2[i]);
        }
        assert(s1 =~= s2);
        lemma_snapshot_determines_pairs(p1.drop_last(), p2.drop_last());
        assert forall|i: int| 0 <= i < p1.len() implies p1[i] == p2[i] by {
            if i < p1.len() - 1 {
                assert(p1[i] == p1.drop_last()[i]);
                assert(p2[i] == p2.drop_last()[i]);
            }
        }
        assert(p1 =~= p2);
    }
}

proof fn lemma_date_prefix_len(d: Date)
    requires
        d.wf(),
    ensures
        date_prefix_chars(d).len() == 9,
{
    lemma_dec_rep_len(d.day as int);
    lemma_dec_rep_len(d.month as int);
    lemma_dec_rep_len(d.year as int);
}

/// Two exports with distinct counter values never produce the same file name,
/// whatever dates they see; and on one date the two names agree on the whole
/// date part, differing only in the counter suffix.
pub proof fn lemma_file_names_distinct(d1: Date, d2: Date, c1: int, c2: int)
    requires
        d1.wf(),
        d2.wf(),
        0 <= c1,
        0 <= c2,
        c1 != c2,
    ensures
        file_name_chars(d1, c1) != file_name_chars(d2, c2),
        d1 == d2 ==> file_name_chars(d1, c1).subrange(0, 9) == file_name_chars(d2, c2).subrange(
            0,
            9,
        ),
{
    let a = file_name_chars(d1, c1);
    let b = file_name_chars(d2, c2);
    lemma_date_prefix_len(d1);
    lemma_date_prefix_len(d2);
    lemma_dec_rep_len(c1);
    lemma_dec_rep_len(c2);
    if a == b {
        let la = dec_rep(c1).len() as int;
        assert(a.len() == 9 + la + 4);
        assert(dec_rep(c2).len() == la);
        assert forall|i: int| 0 <= i < la implies dec_rep(c1)[i] == dec_rep(c2)[i] by {
            assert(a[9 + i] == dec_rep(c1)[i]);
            assert(b[9 + i] == dec_rep(c2)[i]);
        }
        assert(dec_rep(c1) =~= dec_rep(c2));
        lemma_dec_rep_injective(c1, c2);
    }
    if d1 == d2 {
        assert(a.subrange(0, 9) =~= date_prefix_chars(d1));
        assert(b.subrange(0, 9) =~= date_prefix_chars(d2));
    }
}

} // verus!
