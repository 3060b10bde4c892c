//! File-backed checkpoint storage: where each snapshot lives under a root
//! directory, and the versioned text that a snapshot file holds.
//!
//! A snapshot file holds one line of JSON:
//! `{"version":1,"population":[{"id":7,"genome":[0.250000,1.000000],"fitness":-3}]}`.
//! Genes are written as decimals with six fractional digits; identifiers and
//! fitness values as integers. Only this canonical text is read back: the
//! same JSON with other whitespace, another key order or other number forms
//! is refused as a decode error.
use vstd::prelude::*;
use vstd::std_specs::iter::IteratorSpec;
use vstd::string::*;

use crate::genome::{Dna, GENE_ONE, Organism, OrganismId, population_model};
use crate::storage::{L1ChronosError, push_char, sanitize_id, storage_key};

verus! {

/// The format version that this storage writes and reads.
pub const SNAPSHOT_VERSION: u64 = 1;

/// `root` joined with a relative file name, as a path: no separator is added
/// after an empty root or a root that already ends in `/`.
pub open spec fn join_path(root: Seq<char>, name: Seq<char>) -> Seq<char> {
    if root.len() == 0 {
        name
    } else if root.last() == '/' {
        root + name
    } else {
        root + seq!['/'] + name
    }
}

/// Where the snapshot of `id` lives under `root`.
pub open spec fn snapshot_path(root: Seq<char>, id: Seq<char>) -> Seq<char> {
    join_path(root, storage_key(id) + ".population.json"@)
}

/// The decimal digit `d`.
pub open spec fn digit_char(d: nat) -> char {
    ((48 + d) as u8) as char
}

/// The decimal digits of `n`, without leading zeros.
pub open spec fn digits(n: nat) -> Seq<char>
    decreases n,
{
    if n < 10 {
        seq![digit_char(n)]
    } else {
        digits(n / 10) + seq![digit_char(n % 10)]
    }
}

/// An integer in decimal, with a leading `-` when negative.
pub open spec fn int_text(x: int) -> Seq<char> {
    if x < 0 {
        seq!['-'] + digits((-x) as nat)
    } else {
        digits(x as nat)
    }
}

/// The last `width` decimal digits of `n`, with leading zeros.
pub open spec fn padded_digits(n: nat, width: nat) -> Seq<char>
    decreases width,
{
    if width == 0 {
        seq![]
    } else {
        padded_digits(n / 10, (width - 1) as nat) + seq![digit_char(n % 10)]
    }
}

/// A gene as a decimal with six fractional digits.
pub open spec fn gene_text(g: u32) -> Seq<char> {
    digits((g / GENE_ONE) as nat) + seq!['.'] + padded_digits((g % GENE_ONE) as nat, 6)
}

/// Pieces joined by commas.
pub open spec fn comma_joined(items: Seq<Seq<char>>) -> Seq<char>
    decreases items.len(),
{
    if items.len() == 0 {
        seq![]
    } else if items.len() == 1 {
        items[0]
    } else {
        comma_joined(items.drop_last()) + seq![','] + items.last()
    }
}

/// The text of one organism.
pub open spec fn organism_text(o: Organism) -> Seq<char> {
    "{\"id\":"@ + digits(o.id.0 as nat) + ",\"genome\":["@ + comma_joined(
        o.dna.genes@.map_values(|g: u32| gene_text(g)),
    ) + "],\"fitness\":"@ + int_text(o.fitness as int) + "}"@
}

/// The text of a snapshot of `population`.
pub open spec fn snapshot_text(population: Seq<Organism>) -> Seq<char> {
    "{\"version\":1,\"population\":["@ + comma_joined(
        population.map_values(|o: Organism| organism_text(o)),
    ) + "]}"@
}

/// A decimal digit character.
pub open spec fn is_digit(c: char) -> bool {
    '0' <= c && c <= '9'
}

/// The number that a sequence of digit characters spells.
pub open spec fn digits_value(s: Seq<char>) -> nat
    decreases s.len(),
{
    if s.len() == 0 {
        0
    } else {
        digits_value(s.drop_last()) * 10 + ((s.last() as int - 48) as nat)
    }
}

/// `10^w`.
pub open spec fn pow10(w: nat) -> nat
    decreases w,
{
    if w == 0 {
        1
    } else {
        10 * pow10((w - 1) as nat)
    }
}

/// `t` holds the digits of `n` at `pos`, and no further digit follows.
pub open spec fn digits_at(t: Seq<char>, pos: int, n: nat) -> bool {
    let l = digits(n).len() as int;
    &&& 0 <= pos
    &&& pos + l <= t.len()
    &&& t.subrange(pos, pos + l) == digits(n)
    &&& (pos + l == t.len() || !is_digit(t[pos + l]))
}

/// `t` holds `s` at `pos`.
pub open spec fn text_at(t: Seq<char>, pos: int, s: Seq<char>) -> bool {
    0 <= pos && pos + s.len() <= t.len() && t.subrange(pos, pos + s.len()) == s
}

proof fn lemma_digit_char(d: nat)
    requires
        d < 10,
    ensures
        is_digit(digit_char(d)),
        digit_char(d) as int - 48 == d,
{
}

/// The digits of `n` are digits, at least one, and spell `n`.
proof fn lemma_digits(n: nat)
    ensures
        digits(n).len() >= 1,
        forall|i: int| 0 <= i < digits(n).len() ==> is_digit(#[trigger] digits(n)[i]),
        digits_value(digits(n)) == n,
    decreases n,
{
    lemma_digit_char(n % 10);
    if n >= 10 {
        lemma_digits(n / 10);
        assert(digits(n).drop_last() =~= digits(n / 10));
        assert(digits(n).last() == digit_char(n % 10));
        assert(n == (n / 10) * 10 + n % 10);
        assert(digits_value(digits(n)) == digits_value(digits(n / 10)) * 10 + ((digit_char(n % 10) as int - 48) as nat));
    } else {
        assert(digits(n).drop_last() =~= Seq::<char>::empty());
        assert(digits(n).last() == digit_char(n));
        assert(digits_value(Seq::<char>::empty()) == 0);
        assert(digits_value(digits(n)) == digits_value(digits(n).drop_last()) * 10 + ((digit_char(n) as int - 48) as nat));
    }
}

/// The padded digits of `n` are `width` digits and, when `n < 10^width`,
/// spell `n`.
proof fn lemma_padded(n: nat, width: nat)
    ensures
        padded_digits(n, width).len() == width,
        forall|i: int|
            0 <= i < padded_digits(n, width).len() ==> is_digit(#[trigger] padded_digits(n, width)[i]),
        n < pow10(width) ==> digits_value(padded_digits(n, width)) == n,
    decreases width,
{
    if width > 0 {
        lemma_digit_char(n % 10);
        lemma_padded(n / 10, (width - 1) as nat);
        assert(padded_digits(n, width).drop_last() =~= padded_digits(n / 10, (width - 1) as nat));
    }
}

/// A prefix of a run of digits spells no more than the whole run.
proof fn lemma_prefix_value(s: Seq<char>, k: int)
    requires
        0 <= k <= s.len(),
    ensures
        digits_value(s.subrange(0, k)) <= digits_value(s),
    decreases s.len(),
{
    if k == s.len() {
        assert(s.subrange(0, k) =~= s);
    } else {
        lemma_prefix_value(s.drop_last(), k);
        assert(s.drop_last().subrange(0, k) =~= s.subrange(0, k));
    }
}

/// File-backed storage of population snapshots under a root directory.
#[derive(Clone, Debug)]
pub struct L1ChronosFileStorage {
    root: String,
}

/// Appends the characters of `s`.
fn push_str(out: &mut String, s: &str)
    ensures
        final(out)@ == old(out)@ + s@,
{
    let n = s.unicode_len();
    let mut i: usize = 0;
    while i < n
        invariant
            n == s@.len(),
            i <= n,
            out@ == old(out)@ + s@.subrange(0, i as int),
        decreases n - i,
    {
        push_char(out, s.get_char(i));
        i += 1;
        assert(out@ =~= old(out)@ + s@.subrange(0, i as int));
    }
    assert(s@.subrange(0, n as int) =~= s@);
}

/// Appends the decimal digits of `n`.
fn push_digits(out: &mut String, n: u64)
    ensures
        final(out)@ == old(out)@ + digits(n as nat),
    decreases n,
{
    if n >= 10 {
        push_digits(out, n / 10);
    }
    push_char(out, ((48 + n % 10) as u8) as char);
    assert(out@ =~= old(out)@ + digits(n as nat));
}

/// Appending one more piece to a comma-joined prefix.
proof fn lemma_comma_joined_step(items: Seq<Seq<char>>, i: int)
    requires
        0 <= i < items.len(),
    ensures
        comma_joined(items.subrange(0, i + 1)) == comma_joined(items.subrange(0, i)) + (if i == 0 {
            seq![]
        } else {
            seq![',']
        }) + items[i],
{
    let next = items.subrange(0, i + 1);
    assert(next.drop_last() =~= items.subrange(0, i));
    if i == 0 {
        assert(comma_joined(items.subrange(0, 0)) =~= seq![]);
        assert(comma_joined(next) == next[0]);
        assert(comma_joined(next) =~= comma_joined(items.subrange(0, i)) + seq![] + items[i]);
    }
}

/// Appends the last `width` decimal digits of `n`, with leading zeros.
fn push_padded(out: &mut String, n: u64, width: u64)
    ensures
        final(out)@ == old(out)@ + padded_digits(n as nat, width as nat),
    decreases width,
{
    if width > 0 {
        push_padded(out, n / 10, width - 1);
        push_char(out, ((48 + n % 10) as u8) as char);
        assert(out@ =~= old(out)@ + padded_digits(n as nat, width as nat));
    } else {
        assert(out@ =~= old(out)@ + padded_digits(n as nat, width as nat));
    }
}

/// The pieces joined before piece `k` form a prefix of the whole text.
proof fn lemma_comma_joined_prefix(items: Seq<Seq<char>>, k: int)
    requires
        0 <= k <= items.len(),
    ensures
        comma_joined(items.subrange(0, k)).len() <= comma_joined(items).len(),
        comma_joined(items).subrange(0, comma_joined(items.subrange(0, k)).len() as int)
            == comma_joined(items.subrange(0, k)),
    decreases items.len() - k,
{
    let whole = comma_joined(items);
    if k == items.len() {
        assert(items.subrange(0, k) =~= items);
        assert(whole.subrange(0, whole.len() as int) =~= whole);
    } else {
        lemma_comma_joined_prefix(items, k + 1);
        lemma_comma_joined_step(items, k);
        let shorter_text = comma_joined(items.subrange(0, k));
        let longer_text = comma_joined(items.subrange(0, k + 1));
        assert(whole.subrange(0, shorter_text.len() as int) =~= longer_text.subrange(
            0,
            shorter_text.len() as int,
        ));
        assert(longer_text.subrange(0, shorter_text.len() as int) =~= shorter_text);
    }
}

/// Where piece `k` stands in the joined text, and what follows it.
proof fn lemma_comma_joined_item(items: Seq<Seq<char>>, k: int)
    requires
        0 <= k < items.len(),
    ensures
        ({
            let whole = comma_joined(items);
            let start = comma_joined(items.subrange(0, k)).len() + if k == 0 {
                0int
            } else {
                1int
            };
            let end = comma_joined(items.subrange(0, k + 1)).len() as int;
            &&& end == start + items[k].len()
            &&& end <= whole.len()
            &&& whole.subrange(start, end) == items[k]
            &&& k + 1 < items.len() ==> end < whole.len() && whole[end] == ','
            &&& k + 1 == items.len() ==> end == whole.len()
        }),
{
    let whole = comma_joined(items);
    let before = comma_joined(items.subrange(0, k));
    let start = before.len() + if k == 0 {
        0int
    } else {
        1int
    };
    let upto = comma_joined(items.subrange(0, k + 1));
    let end = upto.len() as int;
    lemma_comma_joined_step(items, k);
    lemma_comma_joined_prefix(items, k + 1);
    assert(whole.subrange(start, end) =~= upto.subrange(start, end));
    assert(upto.subrange(start, end) =~= items[k]);
    if k + 1 < items.len() {
        lemma_comma_joined_step(items, k + 1);
        lemma_comma_joined_prefix(items, k + 2);
        let next = comma_joined(items.subrange(0, k + 2));
        assert(next[end] == ',');
        assert(whole[end] == next[end]);
    } else {
        assert(items.subrange(0, k + 1) =~= items);
    }
}

/// Appends `x` in decimal.
fn push_int(out: &mut String, x: i64)
    ensures
        final(out)@ == old(out)@ + int_text(x as int),
{
    if x < 0 {
        push_char(out, '-');
        let magnitude = (0 - (x as i128)) as u64;
        push_digits(out, magnitude);
    } else {
        push_digits(out, x as u64);
    }
    assert(out@ =~= old(out)@ + int_text(x as int));
}

/// Appends a gene as a decimal with six fractional digits.
fn push_gene(out: &mut String, g: u32)
    ensures
        final(out)@ == old(out)@ + gene_text(g),
{
    push_digits(out, (g / GENE_ONE) as u64);
    push_char(out, '.');
    push_padded(out, (g % GENE_ONE) as u64, 6);
    assert(out@ =~= old(out)@ + gene_text(g));
}

/// Appends the text of one organism.
fn push_organism(out: &mut String, o: &Organism)
    ensures
        final(out)@ == old(out)@ + organism_text(*o),
{
    let ghost items = o.dna.genes@.map_values(|g: u32| gene_text(g));
    push_str(out, "{\"id\":");
    push_digits(out, o.id.0);
    push_str(out, ",\"genome\":[");
    let ghost start = out@;
    let n = o.dna.genes.len();
    let mut i: usize = 0;
    while i < n
        invariant
            n == o.dna.genes@.len(),
            items == o.dna.genes@.map_values(|g: u32| gene_text(g)),
            i <= n,
            out@ == start + comma_joined(items.subrange(0, i as int)),
        decreases n - i,
    {
        proof {
            lemma_comma_joined_step(items, i as int);
        }
        if i > 0 {
            push_char(out, ',');
        }
        push_gene(out, o.dna.genes[i]);
        i += 1;
        assert(out@ =~= start + comma_joined(items.subrange(0, i as int)));
    }
    assert(items.subrange(0, n as int) =~= items);
    push_str(out, "],\"fitness\":");
    push_int(out, o.fitness);
    push_str(out, "}");
    assert(out@ =~= old(out)@ + organism_text(*o));
}

/// The text of a snapshot of `population`, in the current format version.
pub fn encode_snapshot(population: &[Organism]) -> (r: String)
    ensures
        r@ == snapshot_text(population@),
{
    let ghost items = population@.map_values(|o: Organism| organism_text(o));
    let mut out = String::new();
    push_str(&mut out, "{\"version\":1,\"population\":[");
    let ghost start = out@;
    let n = population.len();
    let mut i: usize = 0;
    while i < n
        invariant
            n == population@.len(),
            items == population@.map_values(|o: Organism| organism_text(o)),
            i <= n,
            out@ == start + comma_joined(items.subrange(0, i as int)),
        decreases n - i,
    {
        proof {
            lemma_comma_joined_step(items, i as int);
        }
        if i > 0 {
            push_char(&mut out, ',');
        }
        push_organism(&mut out, &population[i]);
        i += 1;
        assert(out@ =~= start + comma_joined(items.subrange(0, i as int)));
    }
    assert(items.subrange(0, n as int) =~= items);
    push_str(&mut out, "]}");
    assert(out@ =~= snapshot_text(population@));
    out
}

/// The characters of `s`, in order.
fn chars_of(s: &str) -> (r: Vec<char>)
    ensures
        r@ == s@,
{
    let n = s.unicode_len();
    let mut it = s.chars();
    let mut out: Vec<char> = Vec::with_capacity(n);
    loop
        invariant
            out@ + it.remaining() == s@,
            it.decrease() is Some,
        ensures
            out@ == s@,
        decreases it.decrease()->0,
    {
        match it.next() {
            Some(c) => {
                out.push(c);
            },
            None => {
                assert(out@ =~= s@);
                break ;
            },
        }
    }
    out
}

/// The value of a decimal digit character, if it is one.
fn digit_value(c: char) -> (r: Option<u64>)
    ensures
        match r {
            Some(d) => '0' <= c <= '9' && d < 10 && c == digit_char(d as nat) && d == c as int - 48,
            None => !('0' <= c <= '9'),
        },
{
    if '0' <= c && c <= '9' {
        let d = (c as u32 - 48) as u64;
        assert(c == digit_char(d as nat)) by {
            assert((c as u32) == 48 + d);
        }
        Some(d)
    } else {
        None
    }
}

/// Whether `t` holds `lit` at `pos`; if so, the position after it.
fn expect(t: &[char], pos: usize, lit: &str) -> (r: Option<usize>)
    requires
        pos <= t@.len(),
    ensures
        match r {
            Some(q) => q == pos + lit@.len() && q <= t@.len() && t@.subrange(pos as int, q as int)
                == lit@,
            None => !(pos + lit@.len() <= t@.len() && t@.subrange(
                pos as int,
                pos + lit@.len(),
            ) == lit@),
        },
{
    let n = lit.unicode_len();
    if n > t.len() - pos {
        return None;
    }
    let mut i: usize = 0;
    while i < n
        invariant
            n == lit@.len(),
            pos + n <= t.len(),
            i <= n,
            t@.subrange(pos as int, pos + i) == lit@.subrange(0, i as int),
        decreases n - i,
    {
        if t[pos + i] != lit.get_char(i) {
            assert(t@.subrange(pos as int, pos + n)[i as int] != lit@[i as int]);
            return None;
        }
        i += 1;
        assert(t@.subrange(pos as int, pos + i) =~= lit@.subrange(0, i as int));
    }
    assert(lit@.subrange(0, n as int) =~= lit@);
    Some(pos + n)
}

/// A run of decimal digits at `pos` read as a number, with the position
/// after the run; `None` when there is no digit or the number overflows.
fn read_u64(t: &[char], pos: usize, Ghost(n): Ghost<nat>) -> (r: Option<(u64, usize)>)
    requires
        pos <= t@.len(),
    ensures
        r matches Some((v, q)) ==> pos < q <= t@.len(),
        digits_at(t@, pos as int, n) && n <= u64::MAX ==> r == Some(
            (n as u64, (pos + digits(n).len()) as usize),
        ),
{
    let ghost expected = digits_at(t@, pos as int, n) && n <= u64::MAX;
    let ghost l = digits(n).len() as int;
    proof {
        lemma_digits(n);
    }
    let mut value: u64 = 0;
    let mut q = pos;
    while q < t.len() && '0' <= t[q] && t[q] <= '9'
        invariant
            pos <= q <= t@.len(),
            l == digits(n).len(),
            l >= 1,
            digits_value(digits(n)) == n,
            expected == (digits_at(t@, pos as int, n) && n <= u64::MAX),
            expected ==> q <= pos + l && value == digits_value(
                digits(n).subrange(0, q - pos),
            ),
        decreases t@.len() - q,
    {
        let d = (t[q] as u32 - 48) as u64;
        proof {
            if expected {
                if q == pos + l {
                    assert(!is_digit(t@[q as int]));
                }
                let k = q - pos;
                assert(t@[q as int] == t@.subrange(pos as int, pos + l)[k]);
                let next = digits(n).subrange(0, k + 1);
                assert(next.drop_last() =~= digits(n).subrange(0, k));
                assert(next.last() == t@[q as int]);
                assert(digits_value(next) == value * 10 + d);
                lemma_prefix_value(digits(n), k + 1);
                assert(value * 10 + d <= u64::MAX);
            }
        }
        if value > (u64::MAX - d) / 10 {
            return None;
        }
        value = value * 10 + d;
        q += 1;
    }
    proof {
        if expected {
            if q < pos + l {
                let k = q - pos;
                assert(t@[q as int] == t@.subrange(pos as int, pos + l)[k]);
            }
            assert(q == pos + l);
            assert(digits(n).subrange(0, l) =~= digits(n));
        }
    }
    if q == pos {
        None
    } else {
        Some((value, q))
    }
}

/// The powers of ten up to `10^6`.
proof fn lemma_pow10_upto_six(i: nat)
    requires
        i <= 6,
    ensures
        pow10(i) <= 1_000_000,
        pow10(6) == 1_000_000,
{
    assert(pow10(0) == 1);
    assert(pow10(1) == 10);
    assert(pow10(2) == 100);
    assert(pow10(3) == 1000);
    assert(pow10(4) == 10000);
    assert(pow10(5) == 100000);
    assert(pow10(6) == 1000000);
    if i == 0 {
    } else if i == 1 {
    } else if i == 2 {
    } else if i == 3 {
    } else if i == 4 {
    } else if i == 5 {
    }
}

/// A gene written with six fractional digits at `pos`.
fn read_gene(t: &[char], pos: usize, Ghost(g): Ghost<u32>) -> (r: Option<(u32, usize)>)
    requires
        pos <= t@.len(),
    ensures
        r matches Some((v, q)) ==> pos < q <= t@.len(),
        text_at(t@, pos as int, gene_text(g)) ==> r == Some((g, (pos + gene_text(g).len()) as usize)),
{
    let ghost expected = text_at(t@, pos as int, gene_text(g));
    let ghost w = (g / GENE_ONE) as nat;
    let ghost f = (g % GENE_ONE) as nat;
    let ghost lw = digits(w).len() as int;
    proof {
        reveal_strlit(".");
        lemma_digits(w);
        lemma_padded(f, 6);
        lemma_pow10_upto_six(6);
        if expected {
            let whole = t@.subrange(pos as int, pos + gene_text(g).len());
            assert(whole == gene_text(g));
            assert(t@.subrange(pos as int, pos + lw) =~= whole.subrange(0, lw));
            assert(whole.subrange(0, lw) =~= digits(w));
            assert(t@[pos + lw] == whole[lw]);
            assert(whole[lw] == '.');
            assert(t@.subrange(pos + lw, pos + lw + 1) =~= "."@);
            assert(!is_digit(t@[pos + lw]));
            assert(digits_at(t@, pos as int, w));
        }
    }
    let _ = t.len();
    let (whole, p) = match read_u64(t, pos, Ghost(w)) {
        Some(v) => v,
        None => {
            return None;
        },
    };
    let p = match expect(t, p, ".") {
        Some(p) => p,
        None => {
            return None;
        },
    };
    proof {
        assert(padded_digits(f, 6).subrange(0, 0) =~= Seq::<char>::empty());
    }
    let ghost p0 = p as int;
    let mut p = p;
    let mut fraction: u64 = 0;
    let mut i: usize = 0;
    while i < 6
        invariant
            pos < p0 <= p <= t@.len(),
            p == p0 + i,
            i <= 6,
            fraction < pow10(i as nat),
            pow10(6) == 1_000_000,
            w == g / GENE_ONE,
            f == g % GENE_ONE,
            lw == digits(w).len(),
            padded_digits(f, 6).len() == 6,
            forall|j: int| 0 <= j < 6 ==> is_digit(#[trigger] padded_digits(f, 6)[j]),
            expected == text_at(t@, pos as int, gene_text(g)),
            expected ==> p0 == pos + lw + 1 && fraction == digits_value(
                padded_digits(f, 6).subrange(0, i as int),
            ),
        decreases 6 - i,
    {
        proof {
            if expected {
                let whole = t@.subrange(pos as int, pos + gene_text(g).len());
                assert(whole[lw + 1 + i] == padded_digits(f, 6)[i as int]);
                assert(t@[p as int] == whole[lw + 1 + i]);
            }
        }
        if p >= t.len() {
            return None;
        }
        let c = t[p];
        if !('0' <= c && c <= '9') {
            return None;
        }
        let d = (c as u32 - 48) as u64;
        proof {
            assert(pow10((i + 1) as nat) == 10 * pow10(i as nat));
            lemma_pow10_upto_six((i + 1) as nat);
            if expected {
                let next = padded_digits(f, 6).subrange(0, i + 1);
                assert(next.drop_last() =~= padded_digits(f, 6).subrange(0, i as int));
                assert(next.last() == c);
            }
        }
        fraction = fraction * 10 + d;
        p += 1;
        i += 1;
    }
    proof {
        if expected {
            assert(padded_digits(f, 6).subrange(0, 6) =~= padded_digits(f, 6));
            assert(fraction == f);
            assert(whole == w);
            assert(g == w * 1_000_000 + f);
        }
    }
    if whole > 4294 {
        return None;
    }
    let value = whole * 1_000_000 + fraction;
    if value > u32::MAX as u64 {
        return None;
    }
    Some((value as u32, p))
}

/// `t` holds `x` in decimal at `pos`, and no further digit follows.
pub open spec fn int_at(t: Seq<char>, pos: int, x: int) -> bool {
    let l = int_text(x).len() as int;
    &&& text_at(t, pos, int_text(x))
    &&& (pos + l == t.len() || !is_digit(t[pos + l]))
}

/// An integer in decimal, with an optional leading `-`, at `pos`.
fn read_i64(t: &[char], pos: usize, Ghost(x): Ghost<i64>) -> (r: Option<(i64, usize)>)
    requires
        pos <= t@.len(),
    ensures
        r matches Some((v, q)) ==> pos < q <= t@.len(),
        int_at(t@, pos as int, x as int) ==> r == Some(
            (x, (pos + int_text(x as int).len()) as usize),
        ),
{
    let _ = t.len();
    let ghost expected = int_at(t@, pos as int, x as int);
    let ghost m = if x < 0 {
        (-x) as nat
    } else {
        x as nat
    };
    let ghost l = int_text(x as int).len() as int;
    proof {
        lemma_digits(m);
        if expected {
            let written = t@.subrange(pos as int, pos + l);
            assert(written == int_text(x as int));
            if x < 0 {
                assert(t@[pos as int] == written[0]);
                assert(t@.subrange(pos + 1, pos + l) =~= written.subrange(1, l));
                assert(written.subrange(1, l) =~= digits(m));
                assert(digits_at(t@, pos + 1, m));
            } else {
                assert(t@[pos as int] == written[0]);
                assert(is_digit(digits(m)[0]));
                assert(digits_at(t@, pos as int, m));
            }
        }
    }
    if pos < t.len() && t[pos] == '-' {
        let (m, q) = match read_u64(t, pos + 1, Ghost(m)) {
            Some(v) => v,
            None => {
                return None;
            },
        };
        if m > 9_223_372_036_854_775_808 {
            None
        } else if m == 9_223_372_036_854_775_808 {
            Some((i64::MIN, q))
        } else {
            Some((0 - (m as i64), q))
        }
    } else {
        let (m, q) = match read_u64(t, pos, Ghost(m)) {
            Some(v) => v,
            None => {
                return None;
            },
        };
        if m > i64::MAX as u64 {
            None
        } else {
            Some((m as i64, q))
        }
    }
}

/// A piece of a text that `t` holds at `pos` is held at its offset.
proof fn lemma_text_at_piece(t: Seq<char>, pos: int, whole: Seq<char>, a: int, b: int)
    requires
        text_at(t, pos, whole),
        0 <= a <= b <= whole.len(),
    ensures
        text_at(t, pos + a, whole.subrange(a, b)),
{
    assert(t.subrange(pos + a, pos + b) =~= t.subrange(pos, pos + whole.len()).subrange(a, b));
}

/// The genes of `genome`, written and comma-joined, at `pos`; reading stops
/// before the first character that does not continue the list.
fn read_genes(t: &[char], pos: usize, Ghost(genome): Ghost<Seq<u32>>) -> (r: Option<
    (Vec<u32>, usize),
>)
    requires
        pos <= t@.len(),
    ensures
        r matches Some((v, q)) ==> pos <= q <= t@.len(),
        ({
            let written = comma_joined(genome.map_values(|g: u32| gene_text(g)));
            text_at(t@, pos as int, written + seq![']']) ==> (r matches Some((v, q)) && v@
                == genome && q == pos + written.len())
        }),
{
    let _ = t.len();
    let ghost items = genome.map_values(|g: u32| gene_text(g));
    let ghost written = comma_joined(items);
    let ghost expected = text_at(t@, pos as int, written + seq![']']);
    let mut genes: Vec<u32> = Vec::new();
    let mut p = pos;
    proof {
        if expected {
            lemma_text_at_piece(t@, pos as int, written + seq![']'], 0, written.len() as int);
            assert((written + seq![']']).subrange(0, written.len() as int) =~= written);
            if genome.len() > 0 {
                lemma_comma_joined_item(items, 0);
                assert(items.subrange(0, 0) =~= Seq::<Seq<char>>::empty());
                lemma_digits((genome[0] / GENE_ONE) as nat);
                assert(items[0][0] == digits((genome[0] / GENE_ONE) as nat)[0]);
                assert(t@[pos as int] == written.subrange(0, items[0].len() as int)[0]);
            } else {
                assert(t@[pos as int] == (written + seq![']'])[0]);
            }
        }
    }
    let mut more = p < t.len() && t[p] != ']';
    while more
        invariant
            pos <= p <= t@.len(),
            t@.len() <= usize::MAX,
            items == genome.map_values(|g: u32| gene_text(g)),
            written == comma_joined(items),
            expected == text_at(t@, pos as int, written + seq![']']),
            expected ==> text_at(t@, pos as int, written),
            expected ==> genes@ == genome.subrange(0, genes@.len() as int),
            expected && more ==> genes@.len() < genome.len() && p == pos + comma_joined(
                items.subrange(0, genes@.len() as int),
            ).len() + if genes@.len() == 0 {
                0int
            } else {
                1int
            },
            expected && !more ==> genes@.len() == genome.len() && p == pos + written.len(),
            expected && genome.len() > 0 ==> more || genes@.len() > 0,
            expected && genome.len() == 0 ==> !more,
        decreases t@.len() - p,
    {
        let ghost k = genes@.len() as int;
        proof {
            if expected {
                lemma_comma_joined_item(items, k);
                let start = comma_joined(items.subrange(0, k)).len() + if k == 0 {
                    0int
                } else {
                    1int
                };
                lemma_text_at_piece(
                    t@,
                    pos as int,
                    written,
                    start,
                    start + items[k].len(),
                );
                assert(items[k] == gene_text(genome[k]));
                assert(p == pos + start);
                assert(text_at(t@, p as int, gene_text(genome[k])));
            }
        }
        let (g, q) = match read_gene(t, p, Ghost(genome[genes@.len() as int])) {
            Some(v) => v,
            None => {
                return None;
            },
        };
        genes.push(g);
        p = q;
        proof {
            if expected {
                assert(genes@ =~= genome.subrange(0, k + 1));
                let end = comma_joined(items.subrange(0, k + 1)).len() as int;
                assert(p == pos + end);
                if k + 1 < genome.len() {
                    assert(t@[p as int] == t@.subrange(pos as int, pos + written.len())[end]);
                } else {
                    assert(t@[p as int] == (written + seq![']'])[written.len() as int]);
                }
            }
        }
        if p < t.len() && t[p] == ',' {
            p += 1;
        } else {
            more = false;
        }
    }
    Some((genes, p))
}

/// One organism at `pos`.
fn read_organism(t: &[char], pos: usize, Ghost(o): Ghost<Organism>) -> (r: Option<
    (Organism, usize),
>)
    requires
        pos <= t@.len(),
    ensures
        r matches Some((v, q)) ==> pos < q <= t@.len(),
        text_at(t@, pos as int, organism_text(o)) ==> (r matches Some((v, q)) && v@ == o@ && q
            == pos + organism_text(o).len()),
{
    let _ = t.len();
    let ghost expected = text_at(t@, pos as int, organism_text(o));
    let ghost items = o.dna.genes@.map_values(|g: u32| gene_text(g));
    let ghost a = "{\"id\":"@;
    let ghost d = digits(o.id.0 as nat);
    let ghost b = ",\"genome\":["@;
    let ghost j = comma_joined(items);
    let ghost c = "],\"fitness\":"@;
    let ghost f = int_text(o.fitness as int);
    let ghost e = "}"@;
    let ghost whole = organism_text(o);
    proof {
        reveal_strlit("{\"id\":");
        reveal_strlit(",\"genome\":[");
        reveal_strlit("],\"fitness\":");
        reveal_strlit("}");
        assert(whole =~= a + d + b + j + c + f + e);
        if expected {
            let p1 = a.len() as int;
            let p2 = p1 + d.len();
            let p3 = p2 + b.len();
            let p4 = p3 + j.len();
            let p5 = p4 + c.len();
            let p6 = p5 + f.len();
            lemma_text_at_piece(t@, pos as int, whole, 0, p1);
            assert(whole.subrange(0, p1) =~= a);
            lemma_text_at_piece(t@, pos as int, whole, p1, p2);
            assert(whole.subrange(p1, p2) =~= d);
            assert(t@[pos + p2] == whole[p2]);
            assert(digits_at(t@, pos + p1, o.id.0 as nat));
            lemma_text_at_piece(t@, pos as int, whole, p2, p3);
            assert(whole.subrange(p2, p3) =~= b);
            lemma_text_at_piece(t@, pos as int, whole, p3, p4 + 1);
            assert(whole.subrange(p3, p4 + 1) =~= j + seq![']']);
            lemma_text_at_piece(t@, pos as int, whole, p4, p5);
            assert(whole.subrange(p4, p5) =~= c);
            lemma_text_at_piece(t@, pos as int, whole, p5, p6);
            assert(whole.subrange(p5, p6) =~= f);
            assert(t@[pos + p6] == whole[p6]);
            assert(int_at(t@, pos + p5, o.fitness as int));
            lemma_text_at_piece(t@, pos as int, whole, p6, p6 + 1);
            assert(whole.subrange(p6, p6 + 1) =~= e);
        }
    }
    let p = match expect(t, pos, "{\"id\":") {
        Some(p) => p,
        None => {
            return None;
        },
    };
    let (id, p) = match read_u64(t, p, Ghost(o.id.0 as nat)) {
        Some(v) => v,
        None => {
            return None;
        },
    };
    let p = match expect(t, p, ",\"genome\":[") {
        Some(p) => p,
        None => {
            return None;
        },
    };
    let (genes, p) = match read_genes(t, p, Ghost(o.dna.genes@)) {
        Some(v) => v,
        None => {
            return None;
        },
    };
    let p = match expect(t, p, "],\"fitness\":") {
        Some(p) => p,
        None => {
            return None;
        },
    };
    let (fitness, p) = match read_i64(t, p, Ghost(o.fitness)) {
        Some(v) => v,
        None => {
            return None;
        },
    };
    let p = match expect(t, p, "}") {
        Some(p) => p,
        None => {
            return None;
        },
    };
    Some((Organism { id: OrganismId(id), dna: Dna { genes }, fitness }, p))
}

/// A number written at a position of `t` is determined by the position.
proof fn lemma_digits_unique(t: Seq<char>, pos: int, n: nat, m: nat)
    requires
        digits_at(t, pos, n),
        digits_at(t, pos, m),
    ensures
        n == m,
{
    lemma_digits(n);
    lemma_digits(m);
    let ln = digits(n).len() as int;
    let lm = digits(m).len() as int;
    if ln < lm {
        assert(t[pos + ln] == t.subrange(pos, pos + lm)[ln]);
        assert(is_digit(digits(m)[ln]));
    } else if lm < ln {
        assert(t[pos + lm] == t.subrange(pos, pos + ln)[lm]);
        assert(is_digit(digits(n)[lm]));
    } else {
        assert(digits(n) == digits(m));
    }
}

/// A gene written at a position of `t` is determined by the position.
proof fn lemma_gene_unique(t: Seq<char>, pos: int, g1: u32, g2: u32)
    requires
        text_at(t, pos, gene_text(g1)),
        text_at(t, pos, gene_text(g2)),
    ensures
        g1 == g2,
{
    let w1 = (g1 / GENE_ONE) as nat;
    let w2 = (g2 / GENE_ONE) as nat;
    let f1 = (g1 % GENE_ONE) as nat;
    let f2 = (g2 % GENE_ONE) as nat;
    lemma_digits(w1);
    lemma_digits(w2);
    lemma_padded(f1, 6);
    lemma_padded(f2, 6);
    lemma_pow10_upto_six(6);
    let l1 = digits(w1).len() as int;
    let l2 = digits(w2).len() as int;
    let s1 = gene_text(g1);
    let s2 = gene_text(g2);
    lemma_text_at_piece(t, pos, s1, 0, l1);
    assert(s1.subrange(0, l1) =~= digits(w1));
    assert(t[pos + l1] == s1[l1]);
    lemma_text_at_piece(t, pos, s2, 0, l2);
    assert(s2.subrange(0, l2) =~= digits(w2));
    assert(t[pos + l2] == s2[l2]);
    lemma_digits_unique(t, pos, w1, w2);
    lemma_text_at_piece(t, pos, s1, l1 + 1, l1 + 7);
    assert(s1.subrange(l1 + 1, l1 + 7) =~= padded_digits(f1, 6));
    lemma_text_at_piece(t, pos, s2, l1 + 1, l1 + 7);
    assert(s2.subrange(l1 + 1, l1 + 7) =~= padded_digits(f2, 6));
    assert(padded_digits(f1, 6) == padded_digits(f2, 6));
}

/// An integer written at a position of `t` is determined by the position.
proof fn lemma_int_unique(t: Seq<char>, pos: int, x: int, y: int)
    requires
        int_at(t, pos, x),
        int_at(t, pos, y),
    ensures
        x == y,
{
    let mx = if x < 0 { -x } else { x } as nat;
    let my = if y < 0 { -y } else { y } as nat;
    lemma_digits(mx);
    lemma_digits(my);
    let sx = int_text(x);
    let sy = int_text(y);
    let lx = sx.len() as int;
    let ly = sy.len() as int;
    assert(t[pos] == t.subrange(pos, pos + lx)[0]);
    assert(t[pos] == t.subrange(pos, pos + ly)[0]);
    if x < 0 && y < 0 {
        lemma_text_at_piece(t, pos, sx, 1, lx);
        assert(sx.subrange(1, lx) =~= digits(mx));
        lemma_text_at_piece(t, pos, sy, 1, ly);
        assert(sy.subrange(1, ly) =~= digits(my));
        lemma_digits_unique(t, pos + 1, mx, my);
    } else if x >= 0 && y >= 0 {
        lemma_digits_unique(t, pos, mx, my);
    } else if x < 0 {
        assert(is_digit(digits(my)[0]));
    } else {
        assert(is_digit(digits(mx)[0]));
    }
}

/// Two comma-joined lists, each followed by `]`, written at the same
/// position of `t` are the same list, when no piece starts with `]` and
/// pieces at the same index and position are the same.
proof fn lemma_joined_unique(
    t: Seq<char>,
    pos: int,
    items1: Seq<Seq<char>>,
    items2: Seq<Seq<char>>,
    k: int,
)
    requires
        text_at(t, pos, comma_joined(items1) + seq![']']),
        text_at(t, pos, comma_joined(items2) + seq![']']),
        forall|i: int|
            0 <= i < items1.len() ==> #[trigger] items1[i].len() > 0 && items1[i][0] != ']',
        forall|i: int|
            0 <= i < items2.len() ==> #[trigger] items2[i].len() > 0 && items2[i][0] != ']',
        forall|i: int, q: int|
            0 <= i < items1.len() && i < items2.len() && #[trigger] text_at(t, q, items1[i])
                && #[trigger] text_at(t, q, items2[i]) ==> items1[i] == items2[i],
        0 <= k <= items1.len(),
        k <= items2.len(),
        items1.subrange(0, k) == items2.subrange(0, k),
    ensures
        items1 == items2,
    decreases items1.len() - k,
{
    let w1 = comma_joined(items1);
    let w2 = comma_joined(items2);
    lemma_text_at_piece(t, pos, w1 + seq![']'], 0, w1.len() as int);
    assert((w1 + seq![']']).subrange(0, w1.len() as int) =~= w1);
    lemma_text_at_piece(t, pos, w2 + seq![']'], 0, w2.len() as int);
    assert((w2 + seq![']']).subrange(0, w2.len() as int) =~= w2);
    let sep = if k == 0 {
        0int
    } else {
        1int
    };
    let start = comma_joined(items1.subrange(0, k)).len() + sep;
    if k < items1.len() && k < items2.len() {
        lemma_comma_joined_item(items1, k);
        lemma_comma_joined_item(items2, k);
        lemma_text_at_piece(t, pos, w1, start, start + items1[k].len());
        lemma_text_at_piece(t, pos, w2, start, start + items2[k].len());
        assert(items1[k] == items2[k]);
        assert(items1.subrange(0, k + 1) =~= items2.subrange(0, k + 1)) by {
            assert(items1.subrange(0, k + 1) =~= items1.subrange(0, k).push(items1[k]));
            assert(items2.subrange(0, k + 1) =~= items2.subrange(0, k).push(items2[k]));
        }
        lemma_joined_unique(t, pos, items1, items2, k + 1);
    } else if k == items1.len() && k == items2.len() {
        assert(items1 =~= items1.subrange(0, k));
        assert(items2 =~= items2.subrange(0, k));
    } else if k == items1.len() {
        assert(items1.subrange(0, k) =~= items1);
        let e = w1.len() as int;
        assert(t[pos + e] == (w1 + seq![']'])[e]);
        lemma_comma_joined_item(items2, k);
        if k == 0 {
            assert(w1.len() == 0);
            assert(t[pos] == w2.subrange(0, items2[0].len() as int)[0]);
            assert(items2.subrange(0, 0) =~= Seq::<Seq<char>>::empty());
            assert(w2.subrange(0, items2[0].len() as int) == items2[0]);
        } else {
            lemma_comma_joined_item(items2, k - 1);
            assert(t[pos + e] == w2[e]);
        }
    } else {
        assert(items2.subrange(0, k) =~= items2);
        let e = w2.len() as int;
        assert(t[pos + e] == (w2 + seq![']'])[e]);
        lemma_comma_joined_item(items1, k);
        if k == 0 {
            assert(w2.len() == 0);
            assert(t[pos] == w1.subrange(0, items1[0].len() as int)[0]);
            assert(items1.subrange(0, 0) =~= Seq::<Seq<char>>::empty());
            assert(w1.subrange(0, items1[0].len() as int) == items1[0]);
        } else {
            lemma_comma_joined_item(items1, k - 1);
            assert(t[pos + e] == w1[e]);
        }
    }
}

/// A text is found at its own start.
proof fn lemma_text_at_self(s: Seq<char>)
    ensures
        text_at(s, 0, s),
{
    assert(s.subrange(0, s.len() as int) =~= s);
}

/// The written genes of a genome: non-empty, starting with a digit.
proof fn lemma_gene_texts_start(genome: Seq<u32>, items: Seq<Seq<char>>)
    requires
        items == genome.map_values(|g: u32| gene_text(g)),
    ensures
        forall|i: int| 0 <= i < items.len() ==> #[trigger] items[i].len() > 0 && items[i][0] != ']',
{
    assert forall|i: int| 0 <= i < items.len() implies #[trigger] items[i].len() > 0 && items[i][0]
        != ']' by {
        lemma_digits((genome[i] / GENE_ONE) as nat);
        assert(is_digit(gene_text(genome[i])[0]));
    }
}

/// An organism written at a position of `t` is determined by the position.
proof fn lemma_organism_unique(t: Seq<char>, pos: int, o1: Organism, o2: Organism)
    requires
        text_at(t, pos, organism_text(o1)),
        text_at(t, pos, organism_text(o2)),
    ensures
        o1@ == o2@,
{
    reveal_strlit("{\"id\":");
    reveal_strlit(",\"genome\":[");
    reveal_strlit("],\"fitness\":");
    reveal_strlit("}");
    let a = "{\"id\":"@;
    let b = ",\"genome\":["@;
    let c = "],\"fitness\":"@;
    let e = "}"@;
    let g1 = o1.dna.genes@;
    let g2 = o2.dna.genes@;
    let items1 = g1.map_values(|g: u32| gene_text(g));
    let items2 = g2.map_values(|g: u32| gene_text(g));
    let j1 = comma_joined(items1);
    let j2 = comma_joined(items2);
    let d1 = digits(o1.id.0 as nat);
    let d2 = digits(o2.id.0 as nat);
    let f1 = int_text(o1.fitness as int);
    let f2 = int_text(o2.fitness as int);
    let s1 = organism_text(o1);
    let s2 = organism_text(o2);
    assert(s1 =~= a + d1 + b + j1 + c + f1 + e);
    assert(s2 =~= a + d2 + b + j2 + c + f2 + e);
    let p1 = a.len() as int;
    // identifiers
    lemma_text_at_piece(t, pos, s1, p1, p1 + d1.len());
    assert(s1.subrange(p1, p1 + d1.len()) =~= d1);
    assert(t[pos + p1 + d1.len()] == s1[p1 + d1.len()]);
    lemma_text_at_piece(t, pos, s2, p1, p1 + d2.len());
    assert(s2.subrange(p1, p1 + d2.len()) =~= d2);
    assert(t[pos + p1 + d2.len()] == s2[p1 + d2.len()]);
    lemma_digits_unique(t, pos + p1, o1.id.0 as nat, o2.id.0 as nat);
    // genes
    let p3 = p1 + d1.len() + b.len();
    lemma_text_at_piece(t, pos, s1, p3, p3 + j1.len() + 1);
    assert(s1.subrange(p3, p3 + j1.len() + 1) =~= j1 + seq![']']);
    lemma_text_at_piece(t, pos, s2, p3, p3 + j2.len() + 1);
    assert(s2.subrange(p3, p3 + j2.len() + 1) =~= j2 + seq![']']);
    lemma_gene_texts_start(g1, items1);
    lemma_gene_texts_start(g2, items2);
    assert forall|i: int, q: int|
        0 <= i < items1.len() && i < items2.len() && #[trigger] text_at(t, q, items1[i])
            && #[trigger] text_at(t, q, items2[i]) implies items1[i] == items2[i] by {
        lemma_gene_unique(t, q, g1[i], g2[i]);
    }
    assert(items1.subrange(0, 0) =~= items2.subrange(0, 0));
    lemma_joined_unique(t, pos + p3, items1, items2, 0);
    assert(g1 =~= g2) by {
        assert(g1.len() == items1.len());
        assert forall|i: int| 0 <= i < g1.len() implies g1[i] == g2[i] by {
            assert(items1[i] == items2[i]);
            lemma_text_at_self(gene_text(g1[i]));
            lemma_gene_unique(gene_text(g1[i]), 0, g1[i], g2[i]);
        }
    }
    // fitness
    let p5 = p3 + j1.len() + c.len();
    let p6 = p5 + f1.len();
    lemma_text_at_piece(t, pos, s1, p5, p6);
    assert(s1.subrange(p5, p6) =~= f1);
    assert(t[pos + p6] == s1[p6]);
    lemma_text_at_piece(t, pos, s2, p5, p5 + f2.len());
    assert(s2.subrange(p5, p5 + f2.len()) =~= f2);
    assert(t[pos + p5 + f2.len()] == s2[p5 + f2.len()]);
    lemma_int_unique(t, pos + p5, o1.fitness as int, o2.fitness as int);
}

/// Two populations with the same snapshot text have the same organisms.
pub proof fn lemma_snapshot_text_injective(p: Seq<Organism>, q: Seq<Organism>)
    requires
        snapshot_text(p) == snapshot_text(q),
    ensures
        population_model(p) == population_model(q),
{
    reveal_strlit("{\"version\":1,\"population\":[");
    reveal_strlit("{\"id\":");
    reveal_strlit("]}");
    let head = "{\"version\":1,\"population\":["@;
    let items1 = p.map_values(|o: Organism| organism_text(o));
    let items2 = q.map_values(|o: Organism| organism_text(o));
    let j1 = comma_joined(items1);
    let j2 = comma_joined(items2);
    let t = snapshot_text(p);
    let h = head.len() as int;
    assert(t =~= head + j1 + "]}"@);
    assert(snapshot_text(q) =~= head + j2 + "]}"@);
    lemma_text_at_self(t);
    lemma_text_at_piece(t, 0, t, h, h + j1.len() + 1);
    assert(t.subrange(h, h + j1.len() + 1) =~= j1 + seq![']']);
    lemma_text_at_piece(t, 0, t, h, h + j2.len() + 1);
    assert(t.subrange(h, h + j2.len() + 1) =~= j2 + seq![']']);
    assert forall|i: int| 0 <= i < items1.len() implies #[trigger] items1[i].len() > 0
        && items1[i][0] != ']' by {
        assert(items1[i][0] == '{');
    }
    assert forall|i: int| 0 <= i < items2.len() implies #[trigger] items2[i].len() > 0
        && items2[i][0] != ']' by {
        assert(items2[i][0] == '{');
    }
    assert forall|i: int, k: int|
        0 <= i < items1.len() && i < items2.len() && #[trigger] text_at(t, k, items1[i])
            && #[trigger] text_at(t, k, items2[i]) implies items1[i] == items2[i] by {
        lemma_organism_unique(t, k, p[i], q[i]);
        assert(p[i].dna.genes@ == q[i].dna.genes@);
    }
    assert(items1.subrange(0, 0) =~= items2.subrange(0, 0));
    lemma_joined_unique(t, h, items1, items2, 0);
    assert(population_model(p) =~= population_model(q)) by {
        assert forall|i: int| 0 <= i < p.len() implies population_model(p)[i] == population_model(
            q,
        )[i] by {
            assert(items1[i] == items2[i]);
            lemma_text_at_self(organism_text(p[i]));
            lemma_organism_unique(organism_text(p[i]), 0, p[i], q[i]);
        }
    }
}

/// Organisms with the same models are written alike.
proof fn lemma_same_models_same_text(a: Seq<Organism>, b: Seq<Organism>)
    requires
        population_model(a) == population_model(b),
    ensures
        snapshot_text(a) == snapshot_text(b),
{
    assert(a.len() == population_model(a).len());
    assert(b.len() == population_model(b).len());
    let ta = a.map_values(|o: Organism| organism_text(o));
    let tb = b.map_values(|o: Organism| organism_text(o));
    assert forall|i: int| 0 <= i < a.len() implies ta[i] == tb[i] by {
        assert(population_model(a)[i] == a[i]@);
        assert(population_model(b)[i] == b[i]@);
        assert(a[i].dna.genes@ == b[i].dna.genes@);
    }
    assert(ta =~= tb);
}

/// The organisms of `population`, written and comma-joined, at `pos`.
fn read_organisms(t: &[char], pos: usize, Ghost(population): Ghost<Seq<Organism>>) -> (r: Option<
    (Vec<Organism>, usize),
>)
    requires
        pos <= t@.len(),
    ensures
        r matches Some((v, q)) ==> pos <= q <= t@.len(),
        ({
            let written = comma_joined(population.map_values(|o: Organism| organism_text(o)));
            text_at(t@, pos as int, written + seq![']']) ==> (r matches Some((v, q))
                && population_model(v@) == population_model(population) && q == pos
                + written.len())
        }),
{
    let _ = t.len();
    let ghost items = population.map_values(|o: Organism| organism_text(o));
    let ghost written = comma_joined(items);
    let ghost expected = text_at(t@, pos as int, written + seq![']']);
    let mut organisms: Vec<Organism> = Vec::new();
    let mut p = pos;
    proof {
        reveal_strlit("{\"id\":");
        if expected {
            lemma_text_at_piece(t@, pos as int, written + seq![']'], 0, written.len() as int);
            assert((written + seq![']']).subrange(0, written.len() as int) =~= written);
            if population.len() > 0 {
                lemma_comma_joined_item(items, 0);
                assert(items.subrange(0, 0) =~= Seq::<Seq<char>>::empty());
                assert(items[0][0] == '{');
                assert(t@[pos as int] == written.subrange(0, items[0].len() as int)[0]);
            } else {
                assert(t@[pos as int] == (written + seq![']'])[0]);
            }
        }
    }
    let mut more = p < t.len() && t[p] != ']';
    while more
        invariant
            pos <= p <= t@.len(),
            t@.len() <= usize::MAX,
            items == population.map_values(|o: Organism| organism_text(o)),
            written == comma_joined(items),
            expected == text_at(t@, pos as int, written + seq![']']),
            expected ==> text_at(t@, pos as int, written),
            expected ==> organisms@.len() <= population.len() && population_model(organisms@)
                == population_model(population.subrange(0, organisms@.len() as int)),
            expected && more ==> organisms@.len() < population.len() && p == pos
                + comma_joined(items.subrange(0, organisms@.len() as int)).len() + if organisms@.len()
                == 0 {
                0int
            } else {
                1int
            },
            expected && !more ==> organisms@.len() == population.len() && p == pos + written.len(),
            expected && population.len() > 0 ==> more || organisms@.len() > 0,
            expected && population.len() == 0 ==> !more,
        decreases t@.len() - p,
    {
        let ghost k = organisms@.len() as int;
        proof {
            if expected {
                lemma_comma_joined_item(items, k);
                let start = comma_joined(items.subrange(0, k)).len() + if k == 0 {
                    0int
                } else {
                    1int
                };
                lemma_text_at_piece(t@, pos as int, written, start, start + items[k].len());
                assert(items[k] == organism_text(population[k]));
                assert(p == pos + start);
                assert(text_at(t@, p as int, organism_text(population[k])));
            }
        }
        let (o, q) = match read_organism(t, p, Ghost(population[organisms@.len() as int])) {
            Some(v) => v,
            None => {
                return None;
            },
        };
        let ghost before = organisms@;
        organisms.push(o);
        p = q;
        proof {
            if expected {
                assert forall|i: int| 0 <= i < k + 1 implies #[trigger] population_model(
                    organisms@,
                )[i] == population_model(population.subrange(0, k + 1))[i] by {
                    if i < k {
                        assert(population_model(before)[i] == population_model(
                            population.subrange(0, k),
                        )[i]);
                    }
                }
                assert(population_model(organisms@) =~= population_model(
                    population.subrange(0, k + 1),
                ));
                let end = comma_joined(items.subrange(0, k + 1)).len() as int;
                assert(p == pos + end);
                if k + 1 < population.len() {
                    assert(t@[p as int] == t@.subrange(pos as int, pos + written.len())[end]);
                } else {
                    assert(t@[p as int] == (written + seq![']'])[written.len() as int]);
                }
            }
        }
        if p < t.len() && t[p] == ',' {
            p += 1;
        } else {
            more = false;
        }
    }
    proof {
        if expected {
            assert(population.subrange(0, population.len() as int) =~= population);
        }
    }
    Some((organisms, p))
}

/// What decoding `text` may give: success exactly on the texts that
/// `encode_snapshot` writes, with the identifiers, genes and fitness values
/// that were written; a decode error on any other text, including a snapshot
/// of another format version.
pub open spec fn decoded_from(text: Seq<char>, r: Result<Vec<Organism>, L1ChronosError>) -> bool {
    &&& r is Ok ==> snapshot_text(r->Ok_0@) == text
    &&& forall|p: Seq<Organism>|
        #[trigger] snapshot_text(p) == text ==> (r is Ok && population_model(r->Ok_0@)
            == population_model(p))
    &&& r is Err ==> r->Err_0 is Json
}

/// The population that a snapshot text holds.
pub fn decode_snapshot(text: &str) -> (r: Result<Vec<Organism>, L1ChronosError>)
    ensures
        decoded_from(text@, r),
{
    let t = chars_of(text);
    let t = t.as_slice();
    let _ = t.len();
    let ghost canonical = exists|p: Seq<Organism>| snapshot_text(p) == text@;
    let ghost p = if canonical {
        choose|p: Seq<Organism>| snapshot_text(p) == text@
    } else {
        Seq::empty()
    };
    let ghost items = p.map_values(|o: Organism| organism_text(o));
    let ghost written = comma_joined(items);
    proof {
        reveal_strlit("{\"version\":1,\"population\":[");
        reveal_strlit("{\"version\":");
        reveal_strlit(",\"population\":[");
        reveal_strlit("]}");
        lemma_digit_char(1);
        let head = "{\"version\":"@;
        let tail = ",\"population\":["@;
        assert("{\"version\":1,\"population\":["@ =~= head + digits(1) + tail);
        if canonical {
            let whole = snapshot_text(p);
            let h = head.len() as int;
            let wl = written.len() as int;
            assert(whole =~= head + digits(1) + tail + written + "]}"@);
            assert(t@ == text@);
            assert(t@.subrange(0, t@.len() as int) =~= t@);
            assert(text_at(t@, 0, whole));
            lemma_text_at_piece(t@, 0, whole, 0, h);
            assert(whole.subrange(0, h) =~= head);
            lemma_text_at_piece(t@, 0, whole, h, h + 1);
            assert(whole.subrange(h, h + 1) =~= digits(1));
            assert(t@[h + 1] == whole[h + 1]);
            assert(digits_at(t@, h, 1));
            let w0 = h + 1 + tail.len();
            lemma_text_at_piece(t@, 0, whole, h + 1, w0);
            assert(whole.subrange(h + 1, w0) =~= tail);
            lemma_text_at_piece(t@, 0, whole, w0, w0 + wl + 1);
            assert(whole.subrange(w0, w0 + wl + 1) =~= written + seq![']']);
            lemma_text_at_piece(t@, 0, whole, w0 + wl, whole.len() as int);
            assert(whole.subrange(w0 + wl, whole.len() as int) =~= "]}"@);
        }
    }
    let p0 = match expect(t, 0, "{\"version\":") {
        Some(p) => p,
        None => {
            return Err(L1ChronosError::Json("not a population snapshot".to_owned()));
        },
    };
    let (version, p1) = match read_u64(t, p0, Ghost(1)) {
        Some(v) => v,
        None => {
            return Err(L1ChronosError::Json("snapshot version missing".to_owned()));
        },
    };
    if version != SNAPSHOT_VERSION {
        return Err(L1ChronosError::Json("unsupported snapshot version".to_owned()));
    }
    let p2 = match expect(t, p1, ",\"population\":[") {
        Some(p) => p,
        None => {
            return Err(L1ChronosError::Json("population missing".to_owned()));
        },
    };
    let (population, p3) = match read_organisms(t, p2, Ghost(p)) {
        Some(v) => v,
        None => {
            return Err(L1ChronosError::Json("malformed population".to_owned()));
        },
    };
    match expect(t, p3, "]}") {
        Some(p4) => {
            if p4 != t.len() {
                return Err(L1ChronosError::Json("text after the snapshot".to_owned()));
            }
        },
        None => {
            return Err(L1ChronosError::Json("unterminated snapshot".to_owned()));
        },
    }
    proof {
        if canonical {
            lemma_same_models_same_text(population@, p);
        }
    }
    let again = encode_snapshot(population.as_slice());
    if again == text.to_owned() {
        proof {
            assert forall|q: Seq<Organism>| #[trigger] snapshot_text(q) == text@ implies (
            population_model(population@) == population_model(q)) by {
                lemma_snapshot_text_injective(population@, q);
            }
        }
        Ok(population)
    } else {
        Err(L1ChronosError::Json("snapshot is not in canonical form".to_owned()))
    }
}

impl L1ChronosFileStorage {
    /// A storage rooted at `root`.
    pub fn new(root: String) -> (r: Self)
        ensures
            r.root() == root@,
    {
        L1ChronosFileStorage { root }
    }

    /// The root directory.
    pub closed spec fn root(&self) -> Seq<char> {
        self.root@
    }

    /// The file that holds the snapshot of `checkpoint_id`: its storage key
    /// followed by `.population.json`, under the root.
    pub fn checkpoint_path(&self, checkpoint_id: &str) -> (r: String)
        ensures
            r@ == snapshot_path(self.root(), checkpoint_id@),
    {
        let key = sanitize_id(checkpoint_id);
        let mut name = key.clone();
        push_str(&mut name, ".population.json");
        let n = self.root.as_str().unicode_len();
        let mut path = self.root.clone();
        if n > 0 && self.root.as_str().get_char(n - 1) != '/' {
            push_char(&mut path, '/');
        }
        push_str(&mut path, name.as_str());
        assert(path@ =~= snapshot_path(self.root(), checkpoint_id@));
        path
    }
}

/// Round trip of the snapshot text: decoding what `encode_snapshot` wrote
/// for a population succeeds and gives back its identifiers, genes and
/// fitness values.
pub proof fn lemma_encode_then_decode(
    population: Seq<Organism>,
    text: Seq<char>,
    decoded: Result<Vec<Organism>, L1ChronosError>,
)
    requires
        text == snapshot_text(population),
        decoded_from(text, decoded),
    ensures
        decoded is Ok,
        population_model(decoded->Ok_0@) == population_model(population),
{
}

} // verus!
