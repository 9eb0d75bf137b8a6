//! Deterministic fingerprint of a directory tree's file set.
//!
//! Every regular file under a root is recorded as a `relative_path:size:mtime`
//! line; the lines are sorted lexicographically, joined with `|`, and reduced
//! to a 64-bit value by a rolling multiplicative hash, rendered as 16
//! lowercase hex digits.  A missing directory has the distinguished sentinel
//! digest `"empty"`.  The digest is a pure function of the set of
//! `(path, size, mtime)` triples: the order in which the files were
//! enumerated does not matter.
//!
//! The hash is non-cryptographic.  It gates rebuild skipping only and is not
//! an integrity or authenticity check of any content.

use vstd::prelude::*;
use vstd::relations::{sorted_by, total_ordering};
use vstd::seq_lib::lemma_sorted_unique;
use vstd::seq_lib::group_to_multiset_ensures;

verus! {

/// One regular file under the fingerprinted root: its path relative to the
/// root (as bytes), its size in bytes, and its modification time in seconds.
pub struct FileEntry {
    pub path: Vec<u8>,
    pub size: u64,
    pub mtime: u64,
}

/// The mathematical value of a [`FileEntry`].
pub struct FileEntryModel {
    pub path: Seq<u8>,
    pub size: u64,
    pub mtime: u64,
}

impl View for FileEntry {
    type V = FileEntryModel;

    open spec fn view(&self) -> FileEntryModel {
        FileEntryModel { path: self.path@, size: self.size, mtime: self.mtime }
    }
}

impl DeepView for FileEntry {
    type V = FileEntryModel;

    open spec fn deep_view(&self) -> FileEntryModel {
        self.view()
    }
}

/// What the caller found at the fingerprinted root: nothing at all, or the
/// regular files under it, in any order.
pub enum DirListing {
    Missing,
    Present(Vec<FileEntry>),
}

/// The decimal digits of `n`, most significant first, as ASCII bytes.
pub open spec fn dec_digits(n: nat) -> Seq<u8>
    decreases n,
{
    if n < 10 {
        seq![(48 + n) as u8]
    } else {
        dec_digits(n / 10).push((48 + n % 10) as u8)
    }
}

/// Render `n` in decimal as ASCII bytes.
pub fn u64_to_dec(n: u64) -> (digits: Vec<u8>)
    ensures
        digits@ == dec_digits(n as nat),
    decreases n,
{
    if n < 10 {
        let mut digits: Vec<u8> = Vec::new();
        digits.push(48 + n as u8);
        proof {
            assert(digits@ =~= dec_digits(n as nat));
        }
        digits
    } else {
        let mut digits = u64_to_dec(n / 10);
        digits.push(48 + (n % 10) as u8);
        digits
    }
}

/// Lexicographic order on byte strings: compare byte by byte; on a tie, the
/// shorter string comes first.
pub open spec fn lex_le(a: Seq<u8>, b: Seq<u8>) -> bool
    decreases a.len(),
{
    if a.len() == 0 {
        true
    } else if b.len() == 0 {
        false
    } else if a[0] < b[0] {
        true
    } else if a[0] > b[0] {
        false
    } else {
        lex_le(a.drop_first(), b.drop_first())
    }
}

/// [`lex_le`] as a relation value, for use with `sort_by` and `sorted_by`.
pub open spec fn lex_leq() -> spec_fn(Seq<u8>, Seq<u8>) -> bool {
    |a: Seq<u8>, b: Seq<u8>| lex_le(a, b)
}

pub proof fn lemma_lex_le_reflexive(a: Seq<u8>)
    ensures
        lex_le(a, a),
    decreases a.len(),
{
    if a.len() > 0 {
        lemma_lex_le_reflexive(a.drop_first());
    }
}

pub proof fn lemma_lex_le_total(a: Seq<u8>, b: Seq<u8>)
    ensures
        lex_le(a, b) || lex_le(b, a),
    decreases a.len(),
{
    if a.len() > 0 && b.len() > 0 && a[0] == b[0] {
        lemma_lex_le_total(a.drop_first(), b.drop_first());
    }
}

pub proof fn lemma_lex_le_antisymmetric(a: Seq<u8>, b: Seq<u8>)
    requires
        lex_le(a, b),
        lex_le(b, a),
    ensures
        a == b,
    decreases a.len(),
{
    if a.len() == 0 {
        assert(b.len() == 0);
        assert(a =~= b);
    } else {
        assert(b.len() > 0);
        assert(a[0] == b[0]);
        lemma_lex_le_antisymmetric(a.drop_first(), b.drop_first());
        assert(a.drop_first() == b.drop_first());
        assert(a.drop_first().len() == a.len() - 1);
        assert(b.drop_first().len() == b.len() - 1);
        assert(a =~= b) by {
            assert(a.len() == b.len());
            assert forall|i: int| 0 <= i < a.len() implies a[i] == b[i] by {
                if i > 0 {
                    assert(a[i] == a.drop_first()[i - 1]);
                    assert(b[i] == b.drop_first()[i - 1]);
                }
            }
        }
    }
}

pub proof fn lemma_lex_le_transitive(a: Seq<u8>, b: Seq<u8>, c: Seq<u8>)
    requires
        lex_le(a, b),
        lex_le(b, c),
    ensures
        lex_le(a, c),
    decreases a.len(),
{
    if a.len() > 0 && b.len() > 0 && c.len() > 0 && a[0] == b[0] && b[0] == c[0] {
        lemma_lex_le_transitive(a.drop_first(), b.drop_first(), c.drop_first());
    }
}

/// [`lex_le`] is a total ordering on byte strings.
pub proof fn lemma_lex_leq_total_ordering()
    ensures
        total_ordering(lex_leq()),
{
    let leq = lex_leq();
    assert forall|a: Seq<u8>| #[trigger] leq(a, a) by {
        lemma_lex_le_reflexive(a);
    }
    assert forall|a: Seq<u8>, b: Seq<u8>| #[trigger] leq(a, b) && #[trigger] leq(b, a)
        implies a == b by {
        lemma_lex_le_antisymmetric(a, b);
    }
    assert forall|a: Seq<u8>, b: Seq<u8>, c: Seq<u8>|
        #[trigger] leq(a, b) && #[trigger] leq(b, c) implies leq(a, c) by {
        lemma_lex_le_transitive(a, b, c);
    }
    assert forall|a: Seq<u8>, b: Seq<u8>| #[trigger] leq(a, b) || #[trigger] leq(b, a) by {
        lemma_lex_le_total(a, b);
    }
}

/// Compare two byte strings in the order of [`lex_le`].
fn lex_le_exec(a: &Vec<u8>, b: &Vec<u8>) -> (r: bool)
    ensures
        r == lex_le(a@, b@),
{
    let mut i: usize = 0;
    proof {
        assert(a@.skip(0) =~= a@);
        assert(b@.skip(0) =~= b@);
    }
    loop
        invariant
            i <= a@.len(),
            i <= b@.len(),
            lex_le(a@, b@) == lex_le(a@.skip(i as int), b@.skip(i as int)),
        decreases a@.len() - i,
    {
        if i == a.len() {
            proof {
                assert(a@.skip(i as int).len() == 0);
            }
            return true;
        }
        if i == b.len() {
            proof {
                assert(b@.skip(i as int).len() == 0);
                assert(a@.skip(i as int).len() > 0);
            }
            return false;
        }
        let x = a[i];
        let y = b[i];
        proof {
            assert(a@.skip(i as int)[0] == a@[i as int]);
            assert(b@.skip(i as int)[0] == b@[i as int]);
        }
        if x < y {
            return true;
        }
        if x > y {
            return false;
        }
        proof {
            assert(a@.skip(i as int).drop_first() =~= a@.skip(i + 1));
            assert(b@.skip(i as int).drop_first() =~= b@.skip(i + 1));
        }
        i = i + 1;
    }
}

/// A sorted sequence stays sorted when an element at least as large as every
/// element in it is appended.
proof fn lemma_sorted_push(s: Seq<Seq<u8>>, x: Seq<u8>)
    requires
        sorted_by(s, lex_leq()),
        forall|k: int| 0 <= k < s.len() ==> lex_le(#[trigger] s[k], x),
    ensures
        sorted_by(s.push(x), lex_leq()),
{
    let s2 = s.push(x);
    let leq = lex_leq();
    assert forall|i: int, j: int| 0 <= i < j < s2.len() implies leq(s2[i], s2[j]) by {
        if j < s.len() {
            assert(leq(s[i], s[j]));
        } else {
            assert(s2[j] == x);
            assert(lex_le(s[i], x));
        }
    }
}

/// Sort a batch of byte-string lines into lexicographic order.  The result
/// holds exactly the given lines, rearranged.
fn sort_lines(lines: Vec<Vec<u8>>) -> (sorted: Vec<Vec<u8>>)
    ensures
        sorted_by(sorted.deep_view(), lex_leq()),
        sorted.deep_view().to_multiset() == lines.deep_view().to_multiset(),
{
    broadcast use group_to_multiset_ensures;
    broadcast use vstd::multiset::group_multiset_axioms;

    let ghost orig = lines.deep_view();
    let mut rem = lines;
    let mut out: Vec<Vec<u8>> = Vec::new();
    proof {
        assert(out.deep_view() =~= Seq::<Seq<u8>>::empty());
        assert(out.deep_view().to_multiset().add(rem.deep_view().to_multiset())
            =~= orig.to_multiset());
    }
    while rem.len() > 0
        invariant
            sorted_by(out.deep_view(), lex_leq()),
            out.deep_view().to_multiset().add(rem.deep_view().to_multiset())
                == orig.to_multiset(),
            forall|p: int, q: int|
                0 <= p < out.deep_view().len() && 0 <= q < rem.deep_view().len()
                    ==> lex_le(#[trigger] out.deep_view()[p], #[trigger] rem.deep_view()[q]),
        decreases rem.len(),
    {
        let ghost rem0 = rem.deep_view();
        let ghost out0 = out.deep_view();

        // Find the least remaining line.
        let mut m: usize = 0;
        let mut k: usize = 1;
        proof {
            lemma_lex_le_reflexive(rem0[0]);
        }
        while k < rem.len()
            invariant
                rem.deep_view() == rem0,
                0 < rem.len(),
                m < k,
                k <= rem.len(),
                forall|t: int| 0 <= t < k ==> lex_le(rem0[m as int], #[trigger] rem0[t]),
            decreases rem.len() - k,
        {
            proof {
                assert(rem.deep_view()[k as int] == rem@[k as int]@);
                assert(rem.deep_view()[m as int] == rem@[m as int]@);
            }
            if lex_le_exec(&rem[k], &rem[m]) {
                proof {
                    assert forall|t: int| 0 <= t < k + 1
                        implies lex_le(rem0[k as int], #[trigger] rem0[t]) by {
                        if t < k {
                            lemma_lex_le_transitive(rem0[k as int], rem0[m as int], rem0[t]);
                        } else {
                            lemma_lex_le_reflexive(rem0[k as int]);
                        }
                    }
                }
                m = k;
            } else {
                proof {
                    lemma_lex_le_total(rem0[k as int], rem0[m as int]);
                    assert(lex_le(rem0[m as int], rem0[k as int]));
                }
            }
            k = k + 1;
        }

        let ghost x = rem0[m as int];
        let least = rem.remove(m);
        proof {
            assert(least@ == x);
            assert(rem.deep_view() =~= rem0.remove(m as int));
            // The multiset of the remaining lines loses one occurrence of x.
            vstd::seq_lib::to_multiset_remove::<Seq<u8>>(rem0, m as int);
            vstd::seq_lib::to_multiset_contains::<Seq<u8>>(rem0, x);
            assert(rem0.contains(x)) by {
                assert(rem0[m as int] == x);
            }
            assert(rem0.to_multiset().count(x) > 0);
        }
        out.push(least);
        proof {
            assert(out.deep_view() =~= out0.push(x));
            vstd::seq_lib::to_multiset_build::<Seq<u8>>(out0, x);
            assert forall|p: int| 0 <= p < out0.len() implies lex_le(#[trigger] out0[p], x) by {
                assert(lex_le(out0[p], rem0[m as int]));
            }
            lemma_sorted_push(out0, x);
            assert(out.deep_view().to_multiset().add(rem.deep_view().to_multiset())
                =~= orig.to_multiset());
            assert forall|p: int, q: int|
                0 <= p < out.deep_view().len() && 0 <= q < rem.deep_view().len()
                    implies lex_le(#[trigger] out.deep_view()[p], #[trigger] rem.deep_view()[q])
            by {
                let rq = rem.deep_view()[q];
                assert(rem0.remove(m as int)[q] == if q < m { rem0[q] } else { rem0[q + 1] });
                if p < out0.len() {
                    assert(lex_le(out0[p], rq));
                } else {
                    assert(out.deep_view()[p] == x);
                    assert(lex_le(rem0[m as int], rq));
                }
            }
        }
    }
    out
}

/// The lines joined with `|` separators.
pub open spec fn joined(lines: Seq<Seq<u8>>) -> Seq<u8>
    decreases lines.len(),
{
    if lines.len() == 0 {
        Seq::empty()
    } else if lines.len() == 1 {
        lines[0]
    } else {
        lines[0] + seq![124u8] + joined(lines.drop_first())
    }
}

proof fn lemma_joined_push(lines: Seq<Seq<u8>>, x: Seq<u8>)
    ensures
        joined(lines.push(x)) == if lines.len() == 0 {
            x
        } else {
            joined(lines) + seq![124u8] + x
        },
    decreases lines.len(),
{
    let p = lines.push(x);
    if lines.len() == 0 {
        assert(p[0] == x);
    } else if lines.len() == 1 {
        assert(p.drop_first() =~= Seq::<Seq<u8>>::empty().push(x));
        assert(joined(p.drop_first()) == x);
        assert(joined(p) == p[0] + seq![124u8] + x);
        assert(p[0] == lines[0]);
        assert(joined(lines) == lines[0]);
    } else {
        assert(p.drop_first() =~= lines.drop_first().push(x));
        lemma_joined_push(lines.drop_first(), x);
        assert(joined(p) == lines[0] + seq![124u8] + (joined(lines.drop_first()) + seq![124u8]
            + x));
        assert(lines[0] + seq![124u8] + (joined(lines.drop_first()) + seq![124u8] + x)
            =~= (lines[0] + seq![124u8] + joined(lines.drop_first())) + seq![124u8] + x);
    }
}

/// Append the bytes of `src` to `dst`.
fn append_bytes(dst: &mut Vec<u8>, src: &Vec<u8>)
    ensures
        final(dst)@ == old(dst)@ + src@,
{
    let mut j: usize = 0;
    proof {
        assert(old(dst)@ + src@.take(0) =~= old(dst)@);
    }
    while j < src.len()
        invariant
            j <= src.len(),
            dst@ == old(dst)@ + src@.take(j as int),
        decreases src.len() - j,
    {
        dst.push(src[j]);
        proof {
            assert(old(dst)@ + src@.take(j + 1) =~= (old(dst)@ + src@.take(j as int)).push(
                src@[j as int]));
        }
        j = j + 1;
    }
    proof {
        assert(src@.take(src@.len() as int) =~= src@);
    }
}

/// Join the lines with `|` separators.
fn join_lines(lines: &Vec<Vec<u8>>) -> (bytes: Vec<u8>)
    ensures
        bytes@ == joined(lines.deep_view()),
{
    let ghost dv = lines.deep_view();
    let mut acc: Vec<u8> = Vec::new();
    let mut i: usize = 0;
    proof {
        assert(acc@ =~= joined(dv.take(0)));
    }
    while i < lines.len()
        invariant
            i <= lines.len(),
            dv == lines.deep_view(),
            acc@ == joined(dv.take(i as int)),
        decreases lines.len() - i,
    {
        if i > 0 {
            acc.push(124);
        }
        append_bytes(&mut acc, &lines[i]);
        proof {
            assert(lines@[i as int]@ == dv[i as int]);
            lemma_joined_push(dv.take(i as int), dv[i as int]);
            assert(dv.take(i + 1) =~= dv.take(i as int).push(dv[i as int]));
            if i > 0 {
                assert(acc@ =~= joined(dv.take(i as int)) + seq![124u8] + dv[i as int]);
            } else {
                assert(acc@ =~= dv[0]);
            }
        }
        i = i + 1;
    }
    proof {
        assert(dv.take(dv.len() as int) =~= dv);
    }
    acc
}

/// One step of the rolling hash: multiply by 31 and add the next byte, both
/// wrapping on 64 bits.
pub open spec fn hash_step(acc: u64, b: u8) -> u64 {
    vstd::wrapping::u64_specs::wrapping_add(
        vstd::wrapping::u64_specs::wrapping_mul(acc, 31),
        b as u64,
    )
}

pub open spec fn roll_from(acc: u64, s: Seq<u8>) -> u64
    decreases s.len(),
{
    if s.len() == 0 {
        acc
    } else {
        roll_from(hash_step(acc, s[0]), s.drop_first())
    }
}

/// The rolling multiplicative hash of a byte string, starting from 0.
pub open spec fn roll_hash(s: Seq<u8>) -> u64 {
    roll_from(0, s)
}

/// Compute the rolling hash of `bytes`.
fn roll_hash_exec(bytes: &Vec<u8>) -> (h: u64)
    ensures
        h == roll_hash(bytes@),
{
    let mut acc: u64 = 0;
    let mut i: usize = 0;
    proof {
        assert(bytes@.skip(0) =~= bytes@);
    }
    while i < bytes.len()
        invariant
            i <= bytes.len(),
            roll_from(acc, bytes@.skip(i as int)) == roll_hash(bytes@),
        decreases bytes.len() - i,
    {
        proof {
            assert(bytes@.skip(i as int)[0] == bytes@[i as int]);
            assert(bytes@.skip(i as int).drop_first() =~= bytes@.skip(i + 1));
        }
        acc = acc.wrapping_mul(31).wrapping_add(bytes[i] as u64);
        i = i + 1;
    }
    proof {
        assert(bytes@.skip(bytes@.len() as int) =~= Seq::<u8>::empty());
    }
    acc
}

/// The lowercase hex digit for a value below 16.
pub open spec fn hex_digit(d: nat) -> char {
    if d == 0 {
        '0'
    } else if d == 1 {
        '1'
    } else if d == 2 {
        '2'
    } else if d == 3 {
        '3'
    } else if d == 4 {
        '4'
    } else if d == 5 {
        '5'
    } else if d == 6 {
        '6'
    } else if d == 7 {
        '7'
    } else if d == 8 {
        '8'
    } else if d == 9 {
        '9'
    } else if d == 10 {
        'a'
    } else if d == 11 {
        'b'
    } else if d == 12 {
        'c'
    } else if d == 13 {
        'd'
    } else if d == 14 {
        'e'
    } else {
        'f'
    }
}

/// The last `k` hex digits of `h`, most significant first.
pub open spec fn hex_rec(h: nat, k: nat) -> Seq<char>
    decreases k,
{
    if k == 0 {
        Seq::empty()
    } else {
        hex_rec(h / 16, (k - 1) as nat).push(hex_digit(h % 16))
    }
}

/// `h` rendered as exactly 16 lowercase hex digits.
pub open spec fn hex16(h: u64) -> Seq<char> {
    hex_rec(h as nat, 16)
}

/// Append the lowercase hex digit of `d` to `out`.
fn push_hex_digit(out: &mut String, d: u64)
    requires
        d < 16,
    ensures
        final(out)@ == old(out)@ + seq![hex_digit(d as nat)],
{
    if d == 0 {
        out.append("0");
        proof {
            reveal_strlit("0");
            assert("0"@ =~= seq![hex_digit(0)]);
        }
    } else if d == 1 {
        out.append("1");
        proof {
            reveal_strlit("1");
            assert("1"@ =~= seq![hex_digit(1)]);
        }
    } else if d == 2 {
        out.append("2");
        proof {
            reveal_strlit("2");
            assert("2"@ =~= seq![hex_digit(2)]);
        }
    } else if d == 3 {
        out.append("3");
        proof {
            reveal_strlit("3");
            assert("3"@ =~= seq![hex_digit(3)]);
        }
    } else if d == 4 {
        out.append("4");
        proof {
            reveal_strlit("4");
            assert("4"@ =~= seq![hex_digit(4)]);
        }
    } else if d == 5 {
        out.append("5");
        proof {
            reveal_strlit("5");
            assert("5"@ =~= seq![hex_digit(5)]);
        }
    } else if d == 6 {
        out.append("6");
        proof {
            reveal_strlit("6");
            assert("6"@ =~= seq![hex_digit(6)]);
        }
    } else if d == 7 {
        out.append("7");
        proof {
            reveal_strlit("7");
            assert("7"@ =~= seq![hex_digit(7)]);
        }
    } else if d == 8 {
        out.append("8");
        proof {
            reveal_strlit("8");
            assert("8"@ =~= seq![hex_digit(8)]);
        }
    } else if d == 9 {
        out.append("9");
        proof {
            reveal_strlit("9");
            assert("9"@ =~= seq![hex_digit(9)]);
        }
    } else if d == 10 {
        out.append("a");
        proof {
            reveal_strlit("a");
            assert("a"@ =~= seq![hex_digit(10)]);
        }
    } else if d == 11 {
        out.append("b");
        proof {
            reveal_strlit("b");
            assert("b"@ =~= seq![hex_digit(11)]);
        }
    } else if d == 12 {
        out.append("c");
        proof {
            reveal_strlit("c");
            assert("c"@ =~= seq![hex_digit(12)]);
        }
    } else if d == 13 {
        out.append("d");
        proof {
            reveal_strlit("d");
            assert("d"@ =~= seq![hex_digit(13)]);
        }
    } else if d == 14 {
        out.append("e");
        proof {
            reveal_strlit("e");
            assert("e"@ =~= seq![hex_digit(14)]);
        }
    } else {
        out.append("f");
        proof {
            reveal_strlit("f");
            assert("f"@ =~= seq![hex_digit(15)]);
        }
    }
}

/// Append the last `k` hex digits of `h` to `out`.
fn hex_append(out: &mut String, h: u64, k: usize)
    ensures
        final(out)@ == old(out)@ + hex_rec(h as nat, k as nat),
    decreases k,
{
    if k == 0 {
        proof {
            assert(old(out)@ + hex_rec(h as nat, 0) =~= old(out)@);
        }
        return ;
    }
    hex_append(out, h / 16, k - 1);
    push_hex_digit(out, h % 16);
    proof {
        assert((old(out)@ + hex_rec((h / 16) as nat, (k - 1) as nat)) + seq![
            hex_digit((h % 16) as nat)] =~= old(out)@ + hex_rec(h as nat, k as nat));
    }
}

/// Render `h` as 16 lowercase hex digits.
fn u64_to_hex(h: u64) -> (s: String)
    ensures
        s@ == hex16(h),
{
    let mut s = String::new();
    hex_append(&mut s, h, 16);
    proof {
        assert(Seq::<char>::empty() + hex16(h) =~= hex16(h));
    }
    s
}

/// The `relative_path:size:mtime` line of one file entry.
pub open spec fn entry_line(e: FileEntryModel) -> Seq<u8> {
    e.path + seq![58u8] + dec_digits(e.size as nat) + seq![58u8] + dec_digits(e.mtime as nat)
}

fn entry_line_exec(e: &FileEntry) -> (line: Vec<u8>)
    ensures
        line@ == entry_line(e@),
{
    let mut line: Vec<u8> = Vec::new();
    append_bytes(&mut line, &e.path);
    line.push(58);
    let sz = u64_to_dec(e.size);
    append_bytes(&mut line, &sz);
    line.push(58);
    let mt = u64_to_dec(e.mtime);
    append_bytes(&mut line, &mt);
    proof {
        assert(line@ =~= entry_line(e@));
    }
    line
}

/// The lines of a batch of file entries, in enumeration order.
pub open spec fn lines_of(entries: Seq<FileEntryModel>) -> Seq<Seq<u8>> {
    entries.map_values(|e: FileEntryModel| entry_line(e))
}

/// The digest of a present directory: its sorted, joined lines hashed and
/// rendered in hex.
pub open spec fn fingerprint_digest(entries: Seq<FileEntryModel>) -> Seq<char> {
    hex16(roll_hash(joined(lines_of(entries).sort_by(lex_leq()))))
}

/// The sentinel digest of a missing directory.
pub open spec fn missing_digest() -> Seq<char> {
    seq!['e', 'm', 'p', 't', 'y']
}

impl View for DirListing {
    type V = Option<Seq<FileEntryModel>>;

    open spec fn view(&self) -> Option<Seq<FileEntryModel>> {
        match self {
            DirListing::Missing => None,
            DirListing::Present(entries) => Some(entries.deep_view()),
        }
    }
}

/// The digest of a directory listing: the sentinel where the directory is
/// missing, the content digest otherwise.
pub open spec fn dir_digest(listing: Option<Seq<FileEntryModel>>) -> Seq<char> {
    match listing {
        None => missing_digest(),
        Some(entries) => fingerprint_digest(entries),
    }
}

/// Fingerprint a directory listing.  The digest depends only on the set of
/// `(path, size, mtime)` triples, not on the order in which the files were
/// enumerated; a missing directory yields the sentinel `"empty"`.
pub fn hash_directory(listing: &DirListing) -> (digest: String)
    ensures
        digest@ == dir_digest(listing@),
{
    match listing {
        DirListing::Missing => {
            let s = String::from_str("empty");
            proof {
                reveal_strlit("empty");
                assert(s@ =~= missing_digest());
            }
            s
        },
        DirListing::Present(entries) => {
            let ghost ev = entries.deep_view();
            let mut lines: Vec<Vec<u8>> = Vec::new();
            let mut i: usize = 0;
            proof {
                assert(lines.deep_view() =~= lines_of(ev.take(0)));
            }
            while i < entries.len()
                invariant
                    i <= entries.len(),
                    ev == entries.deep_view(),
                    lines.deep_view() == lines_of(ev.take(i as int)),
                decreases entries.len() - i,
            {
                proof {
                    assert(entries@[i as int]@ == ev[i as int]);
                }
                let line = entry_line_exec(&entries[i]);
                let ghost before = lines.deep_view();
                lines.push(line);
                proof {
                    assert(lines.deep_view() =~~= before.push(entry_line(ev[i as int])));
                    assert(before.push(entry_line(ev[i as int])) =~= lines_of(ev.take(i + 1)));
                }
                i = i + 1;
            }
            proof {
                assert(ev.take(ev.len() as int) =~= ev);
            }
            let sorted = sort_lines(lines);
            proof {
                lemma_lex_leq_total_ordering();
                lines_of(ev).lemma_sort_by_ensures(lex_leq());
                lemma_sorted_unique(
                    sorted.deep_view(),
                    lines_of(ev).sort_by(lex_leq()),
                    lex_leq(),
                );
            }
            let bytes = join_lines(&sorted);
            let h = roll_hash_exec(&bytes);
            u64_to_hex(h)
        },
    }
}

/// Two enumerations of the same file set map to line batches with the same
/// multiset.
proof fn lemma_map_values_multiset<A, B>(s1: Seq<A>, s2: Seq<A>, f: spec_fn(A) -> B)
    requires
        s1.to_multiset() == s2.to_multiset(),
    ensures
        s1.map_values(f).to_multiset() == s2.map_values(f).to_multiset(),
    decreases s1.len(),
{
    broadcast use vstd::multiset::group_multiset_axioms;

    vstd::seq_lib::to_multiset_len::<A>(s1);
    vstd::seq_lib::to_multiset_len::<A>(s2);
    if s1.len() == 0 {
        assert(s1.map_values(f) =~= Seq::<B>::empty());
        assert(s2.map_values(f) =~= Seq::<B>::empty());
    } else {
        let x = s1[0];
        vstd::seq_lib::to_multiset_contains::<A>(s1, x);
        assert(s1.contains(x)) by {
            assert(s1[0] == x);
        }
        vstd::seq_lib::to_multiset_contains::<A>(s2, x);
        assert(s2.contains(x));
        let i = choose|i: int| 0 <= i < s2.len() && s2[i] == x;
        vstd::seq_lib::to_multiset_remove::<A>(s1, 0);
        vstd::seq_lib::to_multiset_remove::<A>(s2, i);
        assert(s1.remove(0).to_multiset() == s2.remove(i).to_multiset());
        lemma_map_values_multiset(s1.remove(0), s2.remove(i), f);
        assert(s1.map_values(f).remove(0) =~= s1.remove(0).map_values(f));
        assert(s2.map_values(f).remove(i) =~= s2.remove(i).map_values(f));
        vstd::seq_lib::to_multiset_remove::<B>(s1.map_values(f), 0);
        vstd::seq_lib::to_multiset_remove::<B>(s2.map_values(f), i);
        let y = f(x);
        assert(s1.map_values(f)[0] == y);
        assert(s2.map_values(f)[i] == y);
        let m1 = s1.map_values(f).to_multiset();
        let m2 = s2.map_values(f).to_multiset();
        vstd::seq_lib::to_multiset_contains::<B>(s1.map_values(f), y);
        vstd::seq_lib::to_multiset_contains::<B>(s2.map_values(f), y);
        assert(s1.map_values(f).contains(y)) by {
            assert(s1.map_values(f)[0] == y);
        }
        assert(s2.map_values(f).contains(y)) by {
            assert(s2.map_values(f)[i] == y);
        }
        assert(m1.remove(y) == m2.remove(y));
        assert(m1 =~= m2) by {
            assert forall|e: B| m1.count(e) == m2.count(e) by {
                if e == y {
                    assert(m1.count(y) == m1.remove(y).count(y) + 1);
                    assert(m2.count(y) == m2.remove(y).count(y) + 1);
                } else {
                    assert(m1.remove(y).count(e) == m1.count(e));
                    assert(m2.remove(y).count(e) == m2.count(e));
                }
            }
        }
    }
}

proof fn lemma_hex_rec_len(h: nat, k: nat)
    ensures
        hex_rec(h, k).len() == k,
    decreases k,
{
    if k > 0 {
        lemma_hex_rec_len(h / 16, (k - 1) as nat);
    }
}

/// The sentinel digest of a missing directory differs from the digest of
/// any real content: a content digest always has 16 digits, the sentinel
/// has 5 letters.
pub proof fn lemma_sentinel_distinct(entries: Seq<FileEntryModel>)
    ensures
        missing_digest() != fingerprint_digest(entries),
{
    lemma_hex_rec_len(
        roll_hash(joined(lines_of(entries).sort_by(lex_leq()))) as nat,
        16,
    );
    assert(missing_digest().len() == 5);
}

/// Fingerprint determinism: enumerating the same files in any two orders
/// yields the same digest.  Equivalently, on exactly equal `(path, size,
/// mtime)` triple sets the fingerprint never differs.
pub proof fn lemma_fingerprint_deterministic(es1: Seq<FileEntryModel>, es2: Seq<FileEntryModel>)
    requires
        es1.to_multiset() == es2.to_multiset(),
    ensures
        fingerprint_digest(es1) == fingerprint_digest(es2),
{
    lemma_map_values_multiset(es1, es2, |e: FileEntryModel| entry_line(e));
    lemma_lex_leq_total_ordering();
    lines_of(es1).lemma_sort_by_ensures(lex_leq());
    lines_of(es2).lemma_sort_by_ensures(lex_leq());
    lemma_sorted_unique(
        lines_of(es1).sort_by(lex_leq()),
        lines_of(es2).sort_by(lex_leq()),
        lex_leq(),
    );
}

} // verus!
