//! Storage layout: where the WAL, snapshots, state and the instance lock
//! live under the data root, how segment and snapshot files are named, and
//! the CRC32 checksum used for integrity checks.
use vstd::prelude::*;

use crate::text::{chars_lt, owned, push_char, push_chars, push_str_chars, string_from_chars};

verus! {

/// File name of the single-instance lock.
pub const DEFAULT_LOCK_FILE: &'static str = "rookeeper.lock";

/// One bit step of the reflected CRC-32 register (polynomial
/// `0xEDB88320`).
pub open spec fn crc32_shift(c: u32) -> u32 {
    if c & 1 == 1 { (c >> 1u32) ^ 0xEDB8_8320u32 } else { c >> 1u32 }
}

/// `n` bit steps of the register.
pub open spec fn crc32_shifts(c: u32, n: nat) -> u32
    decreases n,
{
    if n == 0 { c } else { crc32_shifts(crc32_shift(c), (n - 1) as nat) }
}

/// The CRC-32 register after the bytes, starting from all ones.
pub open spec fn crc32_register(bytes: Seq<u8>) -> u32
    decreases bytes.len(),
{
    if bytes.len() == 0 {
        0xFFFF_FFFFu32
    } else {
        crc32_shifts(crc32_register(bytes.drop_last()) ^ (bytes.last() as u32), 8)
    }
}

/// The CRC-32 (IEEE 802.3) checksum of a byte sequence, which `crc32fast`
/// computes: the register after the bytes, inverted.
#[verifier::opaque]
pub open spec fn crc32_of(bytes: Seq<u8>) -> u32 {
    !crc32_register(bytes)
}

/// CRC32 checksum of a byte slice (`crc32fast::hash`).
#[verifier::external_body]
pub fn checksum(bytes: &[u8]) -> (r: u32)
    ensures
        r == crc32_of(bytes@),
{
    crc32fast::hash(bytes)
}

/// A relative path appended to a base path: a separator is inserted unless
/// the base is empty or already ends with one.
pub open spec fn path_join(base: Seq<char>, name: Seq<char>) -> Seq<char> {
    if base.len() == 0 {
        name
    } else if base.last() == '/' {
        base + name
    } else {
        base + seq!['/'] + name
    }
}

/// Computes [`path_join`].
pub fn join_path(base: &String, name: &str) -> (r: String)
    ensures
        r@ == path_join(base@, name@),
{
    let mut out = base.clone();
    let empty = base.as_str().is_empty();
    if !empty {
        let cs = crate::text::chars_of(base.as_str());
        if cs[cs.len() - 1] != '/' {
            push_char(&mut out, '/');
        }
    }
    push_str_chars(&mut out, name);
    out
}

/// The character of a decimal digit.
pub open spec fn digit_char(d: nat) -> char {
    if d == 0 { '0' }
    else if d == 1 { '1' }
    else if d == 2 { '2' }
    else if d == 3 { '3' }
    else if d == 4 { '4' }
    else if d == 5 { '5' }
    else if d == 6 { '6' }
    else if d == 7 { '7' }
    else if d == 8 { '8' }
    else { '9' }
}

/// The decimal digits of a number, most significant first, without
/// leading zeros (`0` is written `0`).
pub open spec fn decimal_digits(n: nat) -> Seq<char>
    decreases n,
{
    if n < 10 {
        seq![digit_char(n)]
    } else {
        decimal_digits(n / 10).push(digit_char(n % 10))
    }
}

/// Left-pads with `0` up to `width` characters.
pub open spec fn zero_pad(s: Seq<char>, width: nat) -> Seq<char> {
    if s.len() >= width {
        s
    } else {
        Seq::new((width - s.len()) as nat, |i: int| '0') + s
    }
}

fn digit(d: u64) -> (r: char)
    requires
        d < 10,
    ensures
        r == digit_char(d as nat),
{
    if d == 0 { '0' }
    else if d == 1 { '1' }
    else if d == 2 { '2' }
    else if d == 3 { '3' }
    else if d == 4 { '4' }
    else if d == 5 { '5' }
    else if d == 6 { '6' }
    else if d == 7 { '7' }
    else if d == 8 { '8' }
    else { '9' }
}

/// The decimal digits of `n`.
pub fn decimal_chars(n: u64) -> (r: Vec<char>)
    ensures
        r@ == decimal_digits(n as nat),
    decreases n,
{
    if n < 10 {
        let mut v: Vec<char> = Vec::new();
        v.push(digit(n));
        assert(v@ =~= seq![digit_char(n as nat)]);
        v
    } else {
        let mut v = decimal_chars(n / 10);
        v.push(digit(n % 10));
        v
    }
}

/// The decimal digits of `n` zero-padded to sixteen characters.
pub fn padded_decimal(n: u64) -> (r: Vec<char>)
    ensures
        r@ == zero_pad(decimal_digits(n as nat), 16),
{
    let digits = decimal_chars(n);
    if digits.len() >= 16 {
        return digits;
    }
    let pad = 16 - digits.len();
    let mut out: Vec<char> = Vec::new();
    let mut i: usize = 0;
    while i < pad
        invariant
            i <= pad,
            out@ == Seq::new(i as nat, |k: int| '0'),
        decreases pad - i,
    {
        out.push('0');
        assert(out@ =~= Seq::new((i + 1) as nat, |k: int| '0'));
        i = i + 1;
    }
    let mut j: usize = 0;
    while j < digits.len()
        invariant
            j <= digits@.len(),
            out@ == Seq::new(pad as nat, |k: int| '0') + digits@.take(j as int),
        decreases digits@.len() - j,
    {
        out.push(digits[j]);
        assert(digits@.take(j as int).push(digits@[j as int]) =~= digits@.take(j + 1));
        assert(out@ =~= Seq::new(pad as nat, |k: int| '0') + digits@.take(j + 1));
        j = j + 1;
    }
    assert(digits@.take(digits@.len() as int) =~= digits@);
    out
}

/// The file name of a WAL segment: `wal-` + sixteen-digit id + `.log`.
pub open spec fn wal_segment_name(segment_id: u64) -> Seq<char> {
    "wal-"@ + zero_pad(decimal_digits(segment_id as nat), 16) + ".log"@
}

/// The file name of a snapshot: `snapshot-` + sixteen-digit generation + `.bin`.
pub open spec fn snapshot_name(generation: u64) -> Seq<char> {
    "snapshot-"@ + zero_pad(decimal_digits(generation as nat), 16) + ".bin"@
}

/// `l` is the layout under the data root `root`: the root itself, `wal/`,
/// `snapshot/`, `state/` and the lock file beneath it.
pub open spec fn laid_out_under(l: StorageLayout, root: Seq<char>) -> bool {
    &&& l.root@ == root
    &&& l.wal_dir@ == path_join(root, "wal"@)
    &&& l.snapshot_dir@ == path_join(root, "snapshot"@)
    &&& l.state_dir@ == path_join(root, "state"@)
    &&& l.lock_file@ == path_join(root, DEFAULT_LOCK_FILE@)
}

/// Directory organisation under the data root.
#[derive(Debug, Clone, PartialEq, Eq)]
pub struct StorageLayout {
    pub root: String,
    pub wal_dir: String,
    pub snapshot_dir: String,
    pub state_dir: String,
    pub lock_file: String,
}

impl StorageLayout {
    /// The layout under a data root: `wal/`, `snapshot/`, `state/` and
    /// the lock file `rookeeper.lock`.
    pub fn from_root(root: &str) -> (r: StorageLayout)
        ensures
            laid_out_under(r, root@),
    {
        let root = owned(root);
        StorageLayout {
            wal_dir: join_path(&root, "wal"),
            snapshot_dir: join_path(&root, "snapshot"),
            state_dir: join_path(&root, "state"),
            lock_file: join_path(&root, DEFAULT_LOCK_FILE),
            root,
        }
    }

    /// The path of a WAL segment file.
    pub fn wal_segment_path(&self, segment_id: u64) -> (r: String)
        ensures
            r@ == path_join(self.wal_dir@, wal_segment_name(segment_id)),
    {
        let mut name = owned("wal-");
        let digits = padded_decimal(segment_id);
        push_chars(&mut name, &digits);
        push_str_chars(&mut name, ".log");
        join_path(&self.wal_dir, name.as_str())
    }

    /// The path of a snapshot file.
    pub fn snapshot_path(&self, generation: u64) -> (r: String)
        ensures
            r@ == path_join(self.snapshot_dir@, snapshot_name(generation)),
    {
        let mut name = owned("snapshot-");
        let digits = padded_decimal(generation);
        push_chars(&mut name, &digits);
        push_str_chars(&mut name, ".bin");
        join_path(&self.snapshot_dir, name.as_str())
    }

    /// The path of a metadata file in the state directory: `name.meta`.
    pub fn state_path(&self, name: &str) -> (r: String)
        ensures
            r@ == path_join(self.state_dir@, name@ + ".meta"@),
    {
        let mut file = owned(name);
        push_str_chars(&mut file, ".meta");
        join_path(&self.state_dir, file.as_str())
    }
}


/// Ten to the power `w`.
pub open spec fn pow10(w: nat) -> nat
    decreases w,
{
    if w == 0 { 1 } else { 10 * pow10((w - 1) as nat) }
}

/// The last `w` decimal digits of `n`, most significant first.
spec fn fixed_digits(n: nat, w: nat) -> Seq<char>
    decreases w,
{
    if w == 0 {
        Seq::empty()
    } else {
        fixed_digits(n / 10, (w - 1) as nat).push(digit_char(n % 10))
    }
}

proof fn lemma_digit_char_value(d: nat)
    requires
        d < 10,
    ensures
        digit_char(d) as int == 48 + d,
{
}

proof fn lemma_fixed_zeros(k: nat)
    ensures
        fixed_digits(0, k) == Seq::new(k, |i: int| '0'),
    decreases k,
{
    if k > 0 {
        lemma_fixed_zeros((k - 1) as nat);
        assert(fixed_digits(0, k) =~= Seq::new(k, |i: int| '0'));
    }
}

proof fn lemma_padded_is_fixed(n: nat, w: nat)
    requires
        w >= 1,
        n < pow10(w),
    ensures
        decimal_digits(n).len() <= w,
        zero_pad(decimal_digits(n), w) == fixed_digits(n, w),
    decreases n,
{
    if n < 10 {
        lemma_fixed_zeros((w - 1) as nat);
        assert(n / 10 == 0 && n % 10 == n);
        assert(zero_pad(decimal_digits(n), w) =~= fixed_digits(n, w));
    } else {
        assert(w >= 2) by {
            if w < 2 {
                assert(pow10(1) == 10 * pow10(0));
            }
        }
        let p = pow10((w - 1) as nat);
        assert(pow10(w) == 10 * p);
        assert(n / 10 < p) by (nonlinear_arith)
            requires n < 10 * p, p >= 1;
        lemma_padded_is_fixed(n / 10, (w - 1) as nat);
        let s = decimal_digits(n / 10);
        assert(decimal_digits(n) == s.push(digit_char(n % 10)));
        assert(zero_pad(decimal_digits(n), w) =~= zero_pad(s, (w - 1) as nat).push(digit_char(n % 10)));
    }
}

/// Comparing behind a common prefix compares what follows it.
proof fn lemma_chars_lt_common_prefix(p: Seq<char>, x: Seq<char>, y: Seq<char>)
    ensures
        chars_lt(p + x, p + y) == chars_lt(x, y),
    decreases p.len(),
{
    if p.len() > 0 {
        assert((p + x).skip(1) =~= p.skip(1) + x);
        assert((p + y).skip(1) =~= p.skip(1) + y);
        lemma_chars_lt_common_prefix(p.skip(1), x, y);
    } else {
        assert(p + x =~= x);
        assert(p + y =~= y);
    }
}

/// Of two texts of one length, the lesser stays lesser whatever follows.
proof fn lemma_chars_lt_extend(x: Seq<char>, y: Seq<char>, s: Seq<char>, t: Seq<char>)
    requires
        x.len() == y.len(),
        chars_lt(x, y),
    ensures
        chars_lt(x + s, y + t),
    decreases x.len(),
{
    assert((x + s)[0] == x[0]);
    assert((y + t)[0] == y[0]);
    if x[0] == y[0] {
        assert((x + s).skip(1) =~= x.skip(1) + s);
        assert((y + t).skip(1) =~= y.skip(1) + t);
        lemma_chars_lt_extend(x.skip(1), y.skip(1), s, t);
    }
}

proof fn lemma_fixed_digits_order(a: nat, b: nat, w: nat)
    requires
        a < b < pow10(w),
    ensures
        fixed_digits(a, w).len() == w,
        fixed_digits(b, w).len() == w,
        chars_lt(fixed_digits(a, w), fixed_digits(b, w)),
    decreases w,
{
    if w == 0 {
        assert(pow10(0) == 1);
    } else {
        let p = pow10((w - 1) as nat);
        assert(pow10(w) == 10 * p);
        assert(a / 10 <= b / 10 && b / 10 < p) by (nonlinear_arith)
            requires a < b, b < 10 * p;
        let ca = digit_char(a % 10);
        let cb = digit_char(b % 10);
        if a / 10 < b / 10 {
            lemma_fixed_digits_order(a / 10, b / 10, (w - 1) as nat);
            lemma_chars_lt_extend(fixed_digits(a / 10, (w - 1) as nat), fixed_digits(b / 10, (w - 1) as nat), seq![ca], seq![cb]);
            assert(fixed_digits(a, w) =~= fixed_digits(a / 10, (w - 1) as nat) + seq![ca]);
            assert(fixed_digits(b, w) =~= fixed_digits(b / 10, (w - 1) as nat) + seq![cb]);
        } else {
            assert(a % 10 < b % 10);
            lemma_digit_char_value(a % 10);
            lemma_digit_char_value(b % 10);
            let q = fixed_digits(a / 10, (w - 1) as nat);
            lemma_fixed_len(a / 10, (w - 1) as nat);
            lemma_chars_lt_common_prefix(q, seq![ca], seq![cb]);
            assert(seq![ca].skip(1).len() == 0);
            assert(chars_lt(seq![ca], seq![cb]));
            assert(fixed_digits(a, w) =~= q + seq![ca]);
            assert(fixed_digits(b, w) =~= q + seq![cb]);
        }
        lemma_fixed_len(a, w);
        lemma_fixed_len(b, w);
    }
}

proof fn lemma_fixed_len(n: nat, w: nat)
    ensures
        fixed_digits(n, w).len() == w,
    decreases w,
{
    if w > 0 {
        lemma_fixed_len(n / 10, (w - 1) as nat);
    }
}

/// Snapshot file names sort as their generations do, for generations of
/// at most sixteen digits: the name of an earlier generation comes first.
pub proof fn lemma_snapshot_names_follow_generations(a: u64, b: u64)
    requires
        a < b < 10_000_000_000_000_000u64,
    ensures
        chars_lt(snapshot_name(a), snapshot_name(b)),
{
    assert(pow10(16) == 10_000_000_000_000_000) by {
        reveal_with_fuel(pow10, 17);
    }
    lemma_padded_is_fixed(a as nat, 16);
    lemma_padded_is_fixed(b as nat, 16);
    lemma_fixed_digits_order(a as nat, b as nat, 16);
    let fa = fixed_digits(a as nat, 16);
    let fb = fixed_digits(b as nat, 16);
    lemma_chars_lt_extend(fa, fb, ".bin"@, ".bin"@);
    lemma_chars_lt_common_prefix("snapshot-"@, fa + ".bin"@, fb + ".bin"@);
    assert(snapshot_name(a) =~= "snapshot-"@ + (fa + ".bin"@));
    assert(snapshot_name(b) =~= "snapshot-"@ + (fb + ".bin"@));
}

} // verus!
