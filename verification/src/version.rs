//! Version numbers and version ranges.
//!
//! A [`Version`] keeps the literal text it was parsed from, the sequence of
//! numbers spelled by its maximal digit runs, and the separator substrings
//! between those runs.  Ordering compares the numeric sequences alone,
//! element by element and then by length; separators never participate.
//!
//! A [`VersionRange`] is either the unconstrained wildcard `*` or a
//! conjunction of up to five optional bounds (`<`, `<=`, `==`, `>=`, `>`).
//! Building a range checks every new bound against the bounds already
//! accepted and rejects the whole range on the first contradiction.

use vstd::prelude::*;
use crate::strutil::{chars_eq, clone_string_vec, from_chars, split_state, trim_back, trim_front, join_spec, join_strings, split_chars, split_spec, split_whitespace_chars, split_ws_spec, to_chars, trim_chars, trim_spec};
use vstd::string::StringExecFns;
use core::cmp::Ordering;

verus! {

// ---------------------------------------------------------------------------
// Characters and digit runs
// ---------------------------------------------------------------------------

/// Whether `c` is an ASCII digit.
pub open spec fn is_digit_char(c: char) -> bool {
    48 <= (c as u32) && (c as u32) <= 57
}

/// The numeric value of the ASCII digit `c`.
pub open spec fn digit_val(c: char) -> int {
    (c as u32) - 48
}

/// Whether every character of `s` is an ASCII digit.
pub open spec fn all_digits(s: Seq<char>) -> bool {
    forall|i: int| 0 <= i < s.len() ==> is_digit_char(#[trigger] s[i])
}

/// The number spelled by the digit string `s`, read in base ten.
pub open spec fn digits_val(s: Seq<char>) -> int
    decreases s.len(),
{
    if s.len() == 0 {
        0
    } else {
        digits_val(s.drop_last()) * 10 + digit_val(s.last())
    }
}

/// The number a digit run is flushed as: the run must be non-empty, consist
/// of digits only, and fit in a `u32`; otherwise it is dropped, exactly as a
/// failing `u32` parse drops it.
pub open spec fn seg_num(cur: Seq<char>) -> Option<u32> {
    if cur.len() > 0 && all_digits(cur) && digits_val(cur) <= u32::MAX {
        Some(digits_val(cur) as u32)
    } else {
        None
    }
}

proof fn lemma_digits_val_nonneg(s: Seq<char>)
    requires
        all_digits(s),
    ensures
        digits_val(s) >= 0,
    decreases s.len(),
{
    if s.len() > 0 {
        assert(all_digits(s.drop_last()));
        lemma_digits_val_nonneg(s.drop_last());
    }
}

/// On an all-digit string, the value of a prefix never exceeds the value of
/// a longer prefix.
proof fn lemma_digits_val_prefix_le(s: Seq<char>, i: int, j: int)
    requires
        all_digits(s),
        0 <= i <= j <= s.len(),
    ensures
        digits_val(s.take(i)) <= digits_val(s.take(j)),
    decreases j - i,
{
    if i < j {
        lemma_digits_val_prefix_le(s, i, j - 1);
        let p = s.take(j);
        assert(p.drop_last() =~= s.take(j - 1));
        assert(all_digits(s.take(j - 1)));
        lemma_digits_val_nonneg(s.take(j - 1));
    }
}

// ---------------------------------------------------------------------------
// Scanning a version string
// ---------------------------------------------------------------------------

/// State of the left-to-right scan that splits a version string into digit
/// runs and separator runs.
pub struct Scan {
    /// Numbers flushed so far.
    pub nums: Seq<u32>,
    /// Separator substrings flushed so far.
    pub seps: Seq<Seq<char>>,
    /// The run being accumulated.
    pub cur: Seq<char>,
    /// Whether the current run is a digit run.
    pub digits: bool,
}

pub open spec fn scan_init() -> Scan {
    Scan { nums: Seq::empty(), seps: Seq::empty(), cur: Seq::empty(), digits: true }
}

/// Appends a flushed digit run to the numeric sequence, or drops it when it
/// is empty or does not fit in a `u32`.
pub open spec fn push_num(nums: Seq<u32>, cur: Seq<char>) -> Seq<u32> {
    match seg_num(cur) {
        Some(n) => nums.push(n),
        None => nums,
    }
}

/// One step of the scan: a digit extends or starts a digit run, anything
/// else extends or starts a separator run; leaving a run flushes it.
pub open spec fn scan_step(st: Scan, c: char) -> Scan {
    if is_digit_char(c) {
        if st.digits {
            Scan { nums: st.nums, seps: st.seps, cur: st.cur.push(c), digits: true }
        } else {
            Scan { nums: st.nums, seps: st.seps.push(st.cur), cur: seq![c], digits: true }
        }
    } else {
        if st.digits {
            Scan { nums: push_num(st.nums, st.cur), seps: st.seps, cur: seq![c], digits: false }
        } else {
            Scan { nums: st.nums, seps: st.seps, cur: st.cur.push(c), digits: false }
        }
    }
}

pub open spec fn scan_chars(s: Seq<char>) -> Scan
    decreases s.len(),
{
    if s.len() == 0 {
        scan_init()
    } else {
        scan_step(scan_chars(s.drop_last()), s.last())
    }
}

/// Flushes the run left over when the input ends.
pub open spec fn scan_finish(st: Scan) -> (Seq<u32>, Seq<Seq<char>>) {
    if st.digits {
        (push_num(st.nums, st.cur), st.seps)
    } else {
        (st.nums, st.seps.push(st.cur))
    }
}

/// The numeric sequence of a version string: the value of every maximal
/// digit run, in order, dropping runs that do not fit in a `u32`.
pub open spec fn version_nums(s: Seq<char>) -> Seq<u32> {
    scan_finish(scan_chars(s)).0
}

/// The separator substrings of a version string, in order.
pub open spec fn version_seps(s: Seq<char>) -> Seq<Seq<char>> {
    scan_finish(scan_chars(s)).1
}

/// Parses a run of characters as a `u32` written in base ten: `None` when
/// the run is empty, contains a non-digit, or exceeds `u32::MAX`.
fn parse_digits(cs: &Vec<char>) -> (r: Option<u32>)
    ensures
        r == seg_num(cs@),
{
    if cs.len() == 0 {
        return None;
    }
    let mut acc: u64 = 0;
    let mut i: usize = 0;
    while i < cs.len()
        invariant
            0 < cs.len(),
            0 <= i <= cs.len(),
            all_digits(cs@.take(i as int)),
            acc == digits_val(cs@.take(i as int)),
            acc <= u32::MAX,
        decreases cs.len() - i,
    {
        let c = cs[i];
        let u = c as u32;
        if !(48 <= u && u <= 57) {
            assert(!all_digits(cs@));
            return None;
        }
        let d = (u - 48) as u64;
        proof {
            assert(cs@.take(i + 1).drop_last() =~= cs@.take(i as int));
            assert(cs@.take(i + 1).last() == cs@[i as int]);
        }
        acc = acc * 10 + d;
        i = i + 1;
        if acc > u32::MAX as u64 {
            proof {
                if all_digits(cs@) {
                    lemma_digits_val_prefix_le(cs@, i as int, cs@.len() as int);
                    assert(cs@.take(cs@.len() as int) =~= cs@);
                }
            }
            return None;
        }
    }
    proof {
        assert(cs@.take(cs@.len() as int) =~= cs@);
    }
    Some(acc as u32)
}

/// Splits a version string into its numeric sequence and its separator
/// substrings, scanning left to right and flushing each maximal run.
pub fn serialize_version_str(version_str: &str) -> (r: (Vec<u32>, Vec<String>))
    ensures
        r.0@ == version_nums(version_str@),
        r.1.deep_view() == version_seps(version_str@),
{
    let mut numbers: Vec<u32> = Vec::new();
    let mut separators: Vec<String> = Vec::new();
    let mut current: Vec<char> = Vec::new();
    let mut is_digit_segment = true;

    let ghost s = version_str@;
    let cs = to_chars(version_str);
    let mut i: usize = 0;
    while i < cs.len()
        invariant
            cs@ == s,
            0 <= i <= s.len(),
            ({
                let st = scan_chars(s.take(i as int));
                &&& numbers@ == st.nums
                &&& current@ == st.cur
                &&& is_digit_segment == st.digits
                &&& separators@.len() == st.seps.len()
                &&& forall|k: int|
                    0 <= k < st.seps.len() ==> #[trigger] separators@[k]@ == st.seps[k]
            }),
        decreases cs.len() - i,
    {
        let c = cs[i];
        proof {
            assert(s.take(i + 1).drop_last() =~= s.take(i as int));
            assert(s.take(i + 1).last() == s[i as int]);
        }
        let u = c as u32;
        if 48 <= u && u <= 57 {
            if !is_digit_segment {
                separators.push(from_chars(current.as_slice()));
                current = Vec::new();
                is_digit_segment = true;
            }
            current.push(c);
        } else {
            if is_digit_segment {
                if let Some(num) = parse_digits(&current) {
                    numbers.push(num);
                }
                current = Vec::new();
                is_digit_segment = false;
            }
            current.push(c);
        }
        i = i + 1;
    }
    proof {
        assert(s.take(s.len() as int) =~= s);
    }
    if is_digit_segment {
        if let Some(num) = parse_digits(&current) {
            numbers.push(num);
        }
    } else {
        separators.push(from_chars(current.as_slice()));
    }
    assert(separators.deep_view() =~= version_seps(s));
    (numbers, separators)
}

// ---------------------------------------------------------------------------
// Structure of digit runs: which inputs parse
// ---------------------------------------------------------------------------

/// Whether `s[i..j]` is a maximal digit run of `s`: non-empty, all digits,
/// and bordered by non-digits (or the ends of the string).
pub open spec fn digit_run_at(s: Seq<char>, i: int, j: int) -> bool {
    &&& 0 <= i < j <= s.len()
    &&& (forall|k: int| i <= k < j ==> is_digit_char(#[trigger] s[k]))
    &&& (i == 0 || !is_digit_char(s[i - 1]))
    &&& (j == s.len() || !is_digit_char(s[j]))
}

/// After the scan, the accumulator is a digit run exactly when the last
/// character read was a digit (or nothing was read yet).
proof fn lemma_scan_digits_flag(s: Seq<char>)
    ensures
        scan_chars(s).digits <==> (s.len() == 0 || is_digit_char(s.last())),
{
}

/// Scanning never removes a flushed number.
proof fn lemma_scan_nums_monotone(s: Seq<char>, t1: int, t2: int)
    requires
        0 <= t1 <= t2 <= s.len(),
    ensures
        scan_chars(s.take(t1)).nums.len() <= scan_chars(s.take(t2)).nums.len(),
    decreases t2 - t1,
{
    if t1 < t2 {
        lemma_scan_nums_monotone(s, t1, t2 - 1);
        let p = s.take(t2);
        assert(p.drop_last() =~= s.take(t2 - 1));
        assert(scan_chars(s.take(t2)) == scan_step(scan_chars(s.take(t2 - 1)), s[t2 - 1]));
    }
}

/// While a maximal digit run is being read, the accumulator holds exactly
/// the part of the run read so far.
proof fn lemma_scan_run_cur(s: Seq<char>, i: int, j: int, t: int)
    requires
        digit_run_at(s, i, j),
        i < t <= j,
    ensures
        scan_chars(s.take(t)).digits,
        scan_chars(s.take(t)).cur == s.subrange(i, t),
    decreases t - i,
{
    let p = s.take(t);
    assert(p.drop_last() =~= s.take(t - 1));
    assert(scan_chars(s.take(t)) == scan_step(scan_chars(s.take(t - 1)), s[t - 1]));
    assert(is_digit_char(s[t - 1]));
    if t == i + 1 {
        if i == 0 {
            assert(s.take(0int) =~= Seq::<char>::empty());
            assert(scan_chars(s.take(i)).cur =~= Seq::<char>::empty());
            assert(seq![s[i]] =~= s.subrange(i, t));
        } else {
            assert(s.take(i).last() == s[i - 1]);
            lemma_scan_digits_flag(s.take(i));
            assert(!scan_chars(s.take(i)).digits);
            assert(seq![s[i]] =~= s.subrange(i, t));
        }
    } else {
        lemma_scan_run_cur(s, i, j, t - 1);
        assert(scan_chars(s.take(t - 1)).cur.push(s[t - 1]) =~= s.subrange(i, t));
    }
}

/// A string with no digit at all yields an empty numeric sequence, so it
/// never parses as a version.
pub proof fn lemma_version_no_digits(s: Seq<char>)
    requires
        forall|i: int| 0 <= i < s.len() ==> !is_digit_char(#[trigger] s[i]),
    ensures
        version_nums(s).len() == 0,
{
    lemma_version_no_digits_rec(s);
    let st = scan_chars(s);
    if st.digits {
        assert(s.len() == 0 || is_digit_char(s.last())) by { lemma_scan_digits_flag(s) };
        assert(st.cur.len() == 0 || !is_digit_char(st.cur[0]));
        assert(seg_num(st.cur) is None);
    }
}

proof fn lemma_version_no_digits_rec(s: Seq<char>)
    requires
        forall|i: int| 0 <= i < s.len() ==> !is_digit_char(#[trigger] s[i]),
    ensures
        scan_chars(s).nums.len() == 0,
        scan_chars(s).cur.len() == 0 || !is_digit_char(scan_chars(s).cur[0]),
    decreases s.len(),
{
    if s.len() > 0 {
        lemma_version_no_digits_rec(s.drop_last());
        let prev = scan_chars(s.drop_last());
        assert(!is_digit_char(s.last()));
        if prev.digits {
            assert(seg_num(prev.cur) is None);
        }
    }
}

/// A string holding a maximal digit run whose value fits in a `u32` yields
/// a non-empty numeric sequence, so it parses as a version.
pub proof fn lemma_version_digit_run(s: Seq<char>, i: int, j: int)
    requires
        digit_run_at(s, i, j),
        digits_val(s.subrange(i, j)) <= u32::MAX,
    ensures
        version_nums(s).len() > 0,
{
    lemma_scan_run_cur(s, i, j, j);
    let run = s.subrange(i, j);
    assert(run.len() == j - i > 0);
    assert(all_digits(run));
    assert(seg_num(run) is Some);
    if j == s.len() {
        assert(s.take(j) =~= s);
        let st = scan_chars(s);
        assert(st.digits && st.cur == run);
        assert(scan_finish(st).0.len() > 0);
    } else {
        let p = s.take(j + 1);
        assert(p.drop_last() =~= s.take(j));
        assert(scan_chars(s.take(j + 1)) == scan_step(scan_chars(s.take(j)), s[j]));
        assert(!is_digit_char(s[j]));
        assert(scan_chars(s.take(j + 1)).nums.len() > 0);
        lemma_scan_nums_monotone(s, j + 1, s.len() as int);
        assert(s.take(s.len() as int) =~= s);
        assert(scan_chars(s).nums.len() > 0);
        assert(scan_finish(scan_chars(s)).0.len() >= scan_chars(s).nums.len());
    }
}

// ---------------------------------------------------------------------------
// Ordering of numeric sequences
// ---------------------------------------------------------------------------

/// Strict order on numeric sequences: the first unequal pair decides; when
/// one sequence is a prefix of the other, the longer one is greater.
pub open spec fn num_seq_lt(a: Seq<u32>, b: Seq<u32>) -> bool
    decreases a.len(),
{
    if b.len() == 0 {
        false
    } else if a.len() == 0 {
        true
    } else if a[0] != b[0] {
        a[0] < b[0]
    } else {
        num_seq_lt(a.drop_first(), b.drop_first())
    }
}

/// The three-way comparison induced by `num_seq_lt`.
pub open spec fn num_seq_cmp(a: Seq<u32>, b: Seq<u32>) -> Ordering {
    if a == b {
        Ordering::Equal
    } else if num_seq_lt(a, b) {
        Ordering::Less
    } else {
        Ordering::Greater
    }
}

/// The order on numeric sequences is a strict total order: for any two
/// sequences exactly one of `a < b`, `a == b`, `b < a` holds.
pub proof fn lemma_num_seq_trichotomy(a: Seq<u32>, b: Seq<u32>)
    ensures
        num_seq_lt(a, b) ==> !num_seq_lt(b, a) && a != b,
        !num_seq_lt(a, b) && !num_seq_lt(b, a) ==> a == b,
    decreases a.len() + b.len(),
{
    if a.len() > 0 && b.len() > 0 && a[0] == b[0] {
        lemma_num_seq_trichotomy(a.drop_first(), b.drop_first());
        if a.drop_first() == b.drop_first() {
            assert forall|i: int| 0 <= i < a.len() implies a[i] == b[i] by {
                if i > 0 {
                    assert(a[i] == a.drop_first()[i - 1]);
                    assert(b[i] == b.drop_first()[i - 1]);
                }
            }
            assert(a =~= b);
        }
        if a == b {
            assert(a.drop_first() == b.drop_first());
        }
    } else if a.len() == 0 && b.len() == 0 {
        assert(a =~= b);
    }
}

/// The order on numeric sequences is transitive.
pub proof fn lemma_num_seq_lt_trans(a: Seq<u32>, b: Seq<u32>, c: Seq<u32>)
    requires
        num_seq_lt(a, b),
        num_seq_lt(b, c),
    ensures
        num_seq_lt(a, c),
    decreases a.len() + b.len() + c.len(),
{
    if a.len() > 0 && b.len() > 0 && c.len() > 0 {
        if a[0] == b[0] && b[0] == c[0] {
            lemma_num_seq_lt_trans(a.drop_first(), b.drop_first(), c.drop_first());
        }
    }
}

/// When two sequences agree strictly before position `i` and differ at `i`,
/// the pair at `i` decides the order.
proof fn lemma_num_seq_lt_at(a: Seq<u32>, b: Seq<u32>, i: int)
    requires
        0 <= i < a.len(),
        i < b.len(),
        forall|k: int| 0 <= k < i ==> a[k] == b[k],
        a[i] != b[i],
    ensures
        num_seq_lt(a, b) <==> a[i] < b[i],
        a != b,
    decreases i,
{
    if i == 0 {
    } else {
        lemma_num_seq_lt_at(a.drop_first(), b.drop_first(), i - 1);
    }
}

/// When the shorter sequence is a prefix of the longer, length decides.
proof fn lemma_num_seq_lt_prefix(a: Seq<u32>, b: Seq<u32>)
    requires
        forall|k: int| 0 <= k < a.len() && k < b.len() ==> a[k] == b[k],
    ensures
        num_seq_lt(a, b) <==> a.len() < b.len(),
        (a == b) <==> a.len() == b.len(),
    decreases a.len() + b.len(),
{
    if a.len() > 0 && b.len() > 0 {
        lemma_num_seq_lt_prefix(a.drop_first(), b.drop_first());
        if a.drop_first() == b.drop_first() {
            assert(a =~= b);
        }
        if a == b {
            assert(a.drop_first() == b.drop_first());
        }
    } else if a.len() == 0 && b.len() == 0 {
        assert(a =~= b);
    }
}

// ---------------------------------------------------------------------------
// The Version type
// ---------------------------------------------------------------------------

/// A version number, kept as its literal text, the numbers of its maximal
/// digit runs, and the separator substrings between the runs.
///
/// Two versions are equal when their numeric sequences are equal; this makes
/// equality agree with the ordering, which also reads the numeric sequences
/// alone.  The literal text and the separators are informational: they feed
/// display and round-tripping, never comparison.
#[derive(Debug)]
pub struct Version {
    /// The original string form.
    string: String,
    /// The numbers of the maximal digit runs, in order.
    nums: Vec<u32>,
    /// The separator substrings between the digit runs, in order.
    separators: Vec<String>,
}

/// The mathematical content of a [`Version`]: its literal text, its numeric
/// sequence, and its separator substrings.
pub struct VersionView {
    pub literal: Seq<char>,
    pub nums: Seq<u32>,
    pub seps: Seq<Seq<char>>,
}

impl View for Version {
    type V = VersionView;

    closed spec fn view(&self) -> VersionView {
        VersionView { literal: self.string@, nums: self.nums@, seps: self.separators.deep_view() }
    }
}

impl DeepView for Version {
    type V = VersionView;

    open spec fn deep_view(&self) -> VersionView {
        self@
    }
}

impl Version {
    /// The literal text this version was parsed from.
    pub open spec fn literal(&self) -> Seq<char> {
        self@.literal
    }

    /// The numeric sequence the ordering reads.
    pub open spec fn nums_seq(&self) -> Seq<u32> {
        self@.nums
    }

    /// The separator substrings.
    pub open spec fn seps_seq(&self) -> Seq<Seq<char>> {
        self@.seps
    }

    /// A well-formed version: its stored parts are exactly what scanning
    /// its literal text produces, and at least one digit run was found.
    pub open spec fn wf(&self) -> bool {
        &&& self.nums_seq() == version_nums(self.literal())
        &&& self.seps_seq() == version_seps(self.literal())
        &&& self.nums_seq().len() > 0
    }

    /// Whether this version is strictly earlier than `other`.
    pub open spec fn spec_lt(&self, other: &Version) -> bool {
        num_seq_lt(self.nums_seq(), other.nums_seq())
    }

    /// Whether this version and `other` compare as equal.
    pub open spec fn spec_eq(&self, other: &Version) -> bool {
        self.nums_seq() == other.nums_seq()
    }

    /// Parses a version string.  Succeeds exactly when the string holds at
    /// least one digit run that fits in a `u32`; the parsed version keeps
    /// the literal text, so display round-trips it unchanged.
    pub fn parse(s: &str) -> (r: Result<Version, String>)
        ensures
            r is Ok <==> version_nums(s@).len() > 0,
            r matches Ok(v) ==> v.literal() == s@ && v.wf(),
            r matches Err(e) ==> e@ == "There is no values for Version struct."@,
    {
        let (nums, separators) = serialize_version_str(s);
        if nums.len() == 0 {
            return Err("There is no values for Version struct.".to_owned());
        }
        Ok(Version { string: s.to_owned(), nums, separators })
    }

    /// The literal text of this version, as written when it was parsed.
    pub fn to_string(&self) -> (r: String)
        ensures
            r@ == self.literal(),
    {
        self.string.clone()
    }
}

impl core::str::FromStr for Version {
    type Err = String;

    fn from_str(s: &str) -> Result<Self, String> {
        Version::parse(s)
    }
}

impl Clone for Version {
    /// A clone has the same view: same literal, numbers, and separators.
    fn clone(&self) -> (r: Self)
        ensures
            r@ == self@,
    {
        let r = Version {
            string: self.string.clone(),
            nums: clone_u32_vec(&self.nums),
            separators: clone_string_vec(&self.separators),
        };
        proof {
            assert(r.seps_seq() =~= self.seps_seq());
        }
        r
    }
}

fn clone_u32_vec(v: &Vec<u32>) -> (r: Vec<u32>)
    ensures
        r@ == v@,
{
    let mut r: Vec<u32> = Vec::new();
    let mut i: usize = 0;
    while i < v.len()
        invariant
            0 <= i <= v.len(),
            r@ == v@.take(i as int),
        decreases v.len() - i,
    {
        r.push(v[i]);
        i = i + 1;
    }
    assert(r@ =~= v@);
    r
}

impl PartialEq for Version {
    /// Versions are equal when their numeric sequences are equal.
    fn eq(&self, other: &Self) -> (r: bool) {
        if self.nums.len() != other.nums.len() {
            proof {
                lemma_num_seq_lt_prefix_helper(self.nums@, other.nums@);
            }
            return false;
        }
        let mut i: usize = 0;
        while i < self.nums.len()
            invariant
                self.nums@.len() == other.nums@.len(),
                0 <= i <= self.nums@.len(),
                forall|k: int| 0 <= k < i ==> self.nums@[k] == other.nums@[k],
            decreases self.nums@.len() - i,
        {
            if self.nums[i] != other.nums[i] {
                proof {
                    lemma_num_seq_lt_at(self.nums@, other.nums@, i as int);
                }
                return false;
            }
            i = i + 1;
        }
        proof {
            assert(self.nums@ =~= other.nums@);
        }
        true
    }
}

proof fn lemma_num_seq_lt_prefix_helper(a: Seq<u32>, b: Seq<u32>)
    requires
        a.len() != b.len(),
    ensures
        a != b,
{
}

impl vstd::std_specs::cmp::PartialEqSpecImpl for Version {
    open spec fn obeys_eq_spec() -> bool {
        true
    }

    open spec fn eq_spec(&self, other: &Version) -> bool {
        self.nums_seq() == other.nums_seq()
    }
}

impl PartialOrd for Version {
    /// Compares the numeric sequences element by element; when the shorter
    /// is a prefix of the longer, the longer is the later version.
    fn partial_cmp(&self, other: &Self) -> (r: Option<Ordering>) {
        let a_len = self.nums.len();
        let b_len = other.nums.len();
        let min_len = if a_len < b_len { a_len } else { b_len };
        let mut i: usize = 0;
        while i < min_len
            invariant
                min_len <= self.nums@.len(),
                min_len <= other.nums@.len(),
                min_len == self.nums@.len() || min_len == other.nums@.len(),
                0 <= i <= min_len,
                forall|k: int| 0 <= k < i ==> self.nums@[k] == other.nums@[k],
            decreases min_len - i,
        {
            let x = self.nums[i];
            let y = other.nums[i];
            if x < y {
                proof {
                    lemma_num_seq_lt_at(self.nums@, other.nums@, i as int);
                }
                return Some(Ordering::Less);
            }
            if x > y {
                proof {
                    lemma_num_seq_lt_at(self.nums@, other.nums@, i as int);
                    lemma_num_seq_trichotomy(self.nums@, other.nums@);
                }
                return Some(Ordering::Greater);
            }
            i = i + 1;
        }
        proof {
            lemma_num_seq_lt_prefix(self.nums@, other.nums@);
            lemma_num_seq_trichotomy(self.nums@, other.nums@);
        }
        if a_len < b_len {
            Some(Ordering::Less)
        } else if a_len > b_len {
            Some(Ordering::Greater)
        } else {
            Some(Ordering::Equal)
        }
    }
}

impl vstd::std_specs::cmp::PartialOrdSpecImpl for Version {
    open spec fn obeys_partial_cmp_spec() -> bool {
        true
    }

    open spec fn partial_cmp_spec(&self, other: &Version) -> Option<Ordering> {
        Some(num_seq_cmp(self.nums_seq(), other.nums_seq()))
    }
}

// ---------------------------------------------------------------------------
// Order relations over version views
// ---------------------------------------------------------------------------

/// `a` is strictly earlier than `b`.
pub open spec fn vv_lt(a: VersionView, b: VersionView) -> bool {
    num_seq_lt(a.nums, b.nums)
}

/// `a` is earlier than or compares equal to `b`.
pub open spec fn vv_le(a: VersionView, b: VersionView) -> bool {
    !num_seq_lt(b.nums, a.nums)
}

/// Whether the bound `o` is present and at least `v`.
pub open spec fn opt_ge(o: Option<VersionView>, v: VersionView) -> bool {
    o matches Some(x) && vv_le(v, x)
}

/// Whether the bound `o` is present and strictly above `v`.
pub open spec fn opt_gt(o: Option<VersionView>, v: VersionView) -> bool {
    o matches Some(x) && vv_lt(v, x)
}

/// Whether the bound `o` is present and at most `v`.
pub open spec fn opt_le(o: Option<VersionView>, v: VersionView) -> bool {
    o matches Some(x) && vv_le(x, v)
}

/// Whether the bound `o` is present and strictly below `v`.
pub open spec fn opt_lt(o: Option<VersionView>, v: VersionView) -> bool {
    o matches Some(x) && vv_lt(x, v)
}

/// Whether the bound `o` is present and compares unequal to `v`.
pub open spec fn opt_ne(o: Option<VersionView>, v: VersionView) -> bool {
    o matches Some(x) && x.nums != v.nums
}

// ---------------------------------------------------------------------------
// Range bound data
// ---------------------------------------------------------------------------

/// The relation kind of one range term.
#[derive(Clone, Copy, Debug)]
pub enum VersionRangeInsertType {
    /// `<` and `<<`: strictly earlier.
    StrictlyEarlier,
    /// `<=`: earlier or equal.
    EarlierOrEqual,
    /// `=` and `==`: exactly equal.
    ExactlyEqual,
    /// `>=`: later or equal.
    LaterOrEqual,
    /// `>` and `>>`: strictly later.
    StrictlyLater,
}

/// The up-to-five bounds of a constrained version range.
#[derive(Debug)]
pub struct RangeData {
    /// Upper bound, excluded (`< v`).
    pub strictly_earlier: Option<Version>,
    /// Upper bound, included (`<= v`).
    pub earlier_or_equal: Option<Version>,
    /// Exact bound (`== v`).
    pub exactly_equal: Option<Version>,
    /// Lower bound, included (`>= v`).
    pub later_or_equal: Option<Version>,
    /// Lower bound, excluded (`> v`).
    pub strictly_later: Option<Version>,
}

/// The mathematical content of a [`RangeData`].
pub struct RangeDataView {
    pub strictly_earlier: Option<VersionView>,
    pub earlier_or_equal: Option<VersionView>,
    pub exactly_equal: Option<VersionView>,
    pub later_or_equal: Option<VersionView>,
    pub strictly_later: Option<VersionView>,
}

/// The view of an optional version.
pub open spec fn opt_view(o: Option<Version>) -> Option<VersionView> {
    match o {
        Some(v) => Some(v@),
        None => None,
    }
}

impl View for RangeData {
    type V = RangeDataView;

    open spec fn view(&self) -> RangeDataView {
        RangeDataView {
            strictly_earlier: opt_view(self.strictly_earlier),
            earlier_or_equal: opt_view(self.earlier_or_equal),
            exactly_equal: opt_view(self.exactly_equal),
            later_or_equal: opt_view(self.later_or_equal),
            strictly_later: opt_view(self.strictly_later),
        }
    }
}

/// A range with no bound at all.
pub open spec fn empty_range_data() -> RangeDataView {
    RangeDataView {
        strictly_earlier: None,
        earlier_or_equal: None,
        exactly_equal: None,
        later_or_equal: None,
        strictly_later: None,
    }
}

/// What inserting the bound `(ty, v)` into `rd` yields: `None` when the new
/// bound contradicts a bound already present, otherwise the updated bounds.
///
/// The rules, bound by bound: an exact bound collapses the others onto
/// itself; an inclusive bound only ever tightens the inclusive bound on its
/// own side; a strict bound tightens its own side and replaces an inclusive
/// bound it subsumes.
pub open spec fn insert_model(v: VersionView, rd: RangeDataView, ty: VersionRangeInsertType) -> Option<
    RangeDataView,
> {
    match ty {
        VersionRangeInsertType::StrictlyEarlier => {
            if opt_ge(rd.exactly_equal, v) || opt_ge(rd.later_or_equal, v) || opt_ge(
                rd.strictly_later,
                v,
            ) {
                None
            } else {
                match rd.earlier_or_equal {
                    Some(x) => if vv_le(v, x) {
                        Some(RangeDataView { strictly_earlier: Some(v), earlier_or_equal: None, ..rd })
                    } else {
                        Some(rd)
                    },
                    None => match rd.strictly_earlier {
                        Some(x) => if vv_lt(v, x) {
                            Some(RangeDataView { strictly_earlier: Some(v), ..rd })
                        } else {
                            Some(rd)
                        },
                        None => Some(RangeDataView { strictly_earlier: Some(v), ..rd }),
                    },
                }
            }
        },
        VersionRangeInsertType::EarlierOrEqual => {
            if opt_gt(rd.exactly_equal, v) || opt_gt(rd.strictly_later, v) {
                None
            } else {
                match rd.earlier_or_equal {
                    Some(x) => if vv_lt(v, x) {
                        Some(RangeDataView { earlier_or_equal: Some(v), ..rd })
                    } else {
                        Some(rd)
                    },
                    None => Some(RangeDataView { earlier_or_equal: Some(v), ..rd }),
                }
            }
        },
        VersionRangeInsertType::ExactlyEqual => {
            if opt_ne(rd.exactly_equal, v) || opt_le(rd.strictly_earlier, v) || opt_lt(
                rd.earlier_or_equal,
                v,
            ) || opt_ge(rd.strictly_later, v) || opt_gt(rd.later_or_equal, v) {
                None
            } else {
                Some(
                    RangeDataView {
                        strictly_earlier: None,
                        earlier_or_equal: Some(v),
                        exactly_equal: Some(v),
                        later_or_equal: Some(v),
                        strictly_later: None,
                    },
                )
            }
        },
        VersionRangeInsertType::LaterOrEqual => {
            if opt_lt(rd.exactly_equal, v) || opt_lt(rd.strictly_earlier, v) {
                None
            } else {
                match rd.later_or_equal {
                    Some(x) => if vv_lt(x, v) {
                        Some(RangeDataView { later_or_equal: Some(v), ..rd })
                    } else {
                        Some(rd)
                    },
                    None => Some(RangeDataView { later_or_equal: Some(v), ..rd }),
                }
            }
        },
        VersionRangeInsertType::StrictlyLater => {
            if opt_le(rd.exactly_equal, v) || opt_le(rd.earlier_or_equal, v) || opt_le(
                rd.strictly_earlier,
                v,
            ) {
                None
            } else {
                match rd.later_or_equal {
                    Some(x) => if vv_le(x, v) {
                        Some(RangeDataView { later_or_equal: None, strictly_later: Some(v), ..rd })
                    } else {
                        Some(rd)
                    },
                    None => match rd.strictly_later {
                        Some(x) => if vv_lt(x, v) {
                            Some(RangeDataView { strictly_later: Some(v), ..rd })
                        } else {
                            Some(rd)
                        },
                        None => Some(RangeDataView { strictly_later: Some(v), ..rd }),
                    },
                }
            }
        },
    }
}

/// The view of an optional range-bound record.
pub open spec fn opt_rd_view(o: Option<RangeData>) -> Option<RangeDataView> {
    match o {
        Some(rd) => Some(rd@),
        None => None,
    }
}

fn ge_bound(o: &Option<Version>, v: &Version) -> (r: bool)
    ensures
        r == opt_ge(opt_view(*o), v@),
{
    match o {
        Some(x) => {
            proof {
                lemma_num_seq_trichotomy(x@.nums, v@.nums);
            }
            *x >= *v
        },
        None => false,
    }
}

fn gt_bound(o: &Option<Version>, v: &Version) -> (r: bool)
    ensures
        r == opt_gt(opt_view(*o), v@),
{
    match o {
        Some(x) => {
            proof {
                lemma_num_seq_trichotomy(v@.nums, x@.nums);
            }
            *x > *v
        },
        None => false,
    }
}

fn le_bound(o: &Option<Version>, v: &Version) -> (r: bool)
    ensures
        r == opt_le(opt_view(*o), v@),
{
    match o {
        Some(x) => {
            proof {
                lemma_num_seq_trichotomy(v@.nums, x@.nums);
            }
            *x <= *v
        },
        None => false,
    }
}

fn lt_bound(o: &Option<Version>, v: &Version) -> (r: bool)
    ensures
        r == opt_lt(opt_view(*o), v@),
{
    match o {
        Some(x) => {
            proof {
                lemma_num_seq_trichotomy(x@.nums, v@.nums);
            }
            *x < *v
        },
        None => false,
    }
}

fn ne_bound(o: &Option<Version>, v: &Version) -> (r: bool)
    ensures
        r == opt_ne(opt_view(*o), v@),
{
    match o {
        Some(x) => !(*x == *v),
        None => false,
    }
}

impl Version {
    /// Inserts this version as the bound of kind `insert_type` into the
    /// given bound data, per [`insert_model`]: the result is `None` when the
    /// new bound contradicts a bound already accepted.
    pub fn insert_to_range_data(
        &self,
        range_data_opt: Option<RangeData>,
        insert_type: VersionRangeInsertType,
    ) -> (r: Option<RangeData>)
        ensures
            match range_data_opt {
                None => r is None,
                Some(rd0) => opt_rd_view(r) == insert_model(self@, rd0@, insert_type),
            },
    {
        if range_data_opt.is_none() {
            return None;
        }
        let mut rd = range_data_opt.unwrap();
        match insert_type {
            VersionRangeInsertType::StrictlyEarlier => {
                if ge_bound(&rd.exactly_equal, self) || ge_bound(&rd.later_or_equal, self)
                    || ge_bound(&rd.strictly_later, self) {
                    return None;
                }
                if let Some(x) = &rd.earlier_or_equal {
                    proof {
                        lemma_num_seq_trichotomy(self@.nums, x@.nums);
                        lemma_num_seq_trichotomy(x@.nums, self@.nums);
                    }
                    if *x >= *self {
                        rd.earlier_or_equal = None;
                        rd.strictly_earlier = Some(self.clone());
                    }
                } else if let Some(x) = &rd.strictly_earlier {
                    proof {
                        lemma_num_seq_trichotomy(self@.nums, x@.nums);
                        lemma_num_seq_trichotomy(x@.nums, self@.nums);
                    }
                    if *x > *self {
                        rd.strictly_earlier = Some(self.clone());
                    }
                } else {
                    rd.strictly_earlier = Some(self.clone());
                }
            },
            VersionRangeInsertType::EarlierOrEqual => {
                if gt_bound(&rd.exactly_equal, self) || gt_bound(&rd.strictly_later, self) {
                    return None;
                }
                if let Some(x) = &rd.earlier_or_equal {
                    proof {
                        lemma_num_seq_trichotomy(self@.nums, x@.nums);
                        lemma_num_seq_trichotomy(x@.nums, self@.nums);
                    }
                    if *x > *self {
                        rd.earlier_or_equal = Some(self.clone());
                    }
                } else {
                    rd.earlier_or_equal = Some(self.clone());
                }
            },
            VersionRangeInsertType::ExactlyEqual => {
                if ne_bound(&rd.exactly_equal, self) || le_bound(&rd.strictly_earlier, self)
                    || lt_bound(&rd.earlier_or_equal, self) || ge_bound(&rd.strictly_later, self)
                    || gt_bound(&rd.later_or_equal, self) {
                    return None;
                }
                rd.exactly_equal = Some(self.clone());
                rd.strictly_earlier = None;
                rd.earlier_or_equal = Some(self.clone());
                rd.strictly_later = None;
                rd.later_or_equal = Some(self.clone());
            },
            VersionRangeInsertType::LaterOrEqual => {
                if lt_bound(&rd.exactly_equal, self) || lt_bound(&rd.strictly_earlier, self) {
                    return None;
                }
                if let Some(x) = &rd.later_or_equal {
                    proof {
                        lemma_num_seq_trichotomy(self@.nums, x@.nums);
                        lemma_num_seq_trichotomy(x@.nums, self@.nums);
                    }
                    if *x < *self {
                        rd.later_or_equal = Some(self.clone());
                    }
                } else {
                    rd.later_or_equal = Some(self.clone());
                }
            },
            VersionRangeInsertType::StrictlyLater => {
                if le_bound(&rd.exactly_equal, self) || le_bound(&rd.earlier_or_equal, self)
                    || le_bound(&rd.strictly_earlier, self) {
                    return None;
                }
                if let Some(x) = &rd.later_or_equal {
                    proof {
                        lemma_num_seq_trichotomy(self@.nums, x@.nums);
                        lemma_num_seq_trichotomy(x@.nums, self@.nums);
                    }
                    if *x <= *self {
                        rd.later_or_equal = None;
                        rd.strictly_later = Some(self.clone());
                    }
                } else if let Some(x) = &rd.strictly_later {
                    proof {
                        lemma_num_seq_trichotomy(self@.nums, x@.nums);
                        lemma_num_seq_trichotomy(x@.nums, self@.nums);
                    }
                    if *x < *self {
                        rd.strictly_later = Some(self.clone());
                    }
                } else {
                    rd.strictly_later = Some(self.clone());
                }
            },
        }
        Some(rd)
    }
}

fn clone_opt_version(o: &Option<Version>) -> (r: Option<Version>)
    ensures
        opt_view(r) == opt_view(*o),
{
    match o {
        Some(v) => Some(v.clone()),
        None => None,
    }
}

impl Clone for RangeData {
    /// A clone has the same view: the same five bounds.
    fn clone(&self) -> (r: Self)
        ensures
            r@ == self@,
    {
        RangeData {
            strictly_earlier: clone_opt_version(&self.strictly_earlier),
            earlier_or_equal: clone_opt_version(&self.earlier_or_equal),
            exactly_equal: clone_opt_version(&self.exactly_equal),
            later_or_equal: clone_opt_version(&self.later_or_equal),
            strictly_later: clone_opt_version(&self.strictly_later),
        }
    }
}

// ---------------------------------------------------------------------------
// Version ranges
// ---------------------------------------------------------------------------

/// A version range: the unconstrained wildcard, or a conjunction of up to
/// five bounds built by [`insert_model`] and never self-contradictory under
/// its rules.
///
/// Its view is `None` for the wildcard and `Some` of the bound data
/// otherwise.
#[derive(Debug)]
pub struct VersionRange {
    /// `None` means no constraint at all (the wildcard `*`).
    _range_data: Option<RangeData>,
}

impl View for VersionRange {
    type V = Option<RangeDataView>;

    closed spec fn view(&self) -> Option<RangeDataView> {
        opt_rd_view(self._range_data)
    }
}

/// Whether the version `v` satisfies every bound of `rd`.
pub open spec fn bound_matches(rd: RangeDataView, v: VersionView) -> bool {
    &&& (rd.strictly_earlier matches Some(b) ==> vv_lt(v, b))
    &&& (rd.earlier_or_equal matches Some(b) ==> vv_le(v, b))
    &&& (rd.exactly_equal matches Some(b) ==> v.nums == b.nums)
    &&& (rd.later_or_equal matches Some(b) ==> vv_le(b, v))
    &&& (rd.strictly_later matches Some(b) ==> vv_lt(b, v))
}

/// Whether the version `v` lies in the range `rv`: the wildcard admits
/// everything, and a bounded range admits `v` exactly when every present
/// bound accepts it.
pub open spec fn range_matches(rv: Option<RangeDataView>, v: VersionView) -> bool {
    match rv {
        None => true,
        Some(rd) => bound_matches(rd, v),
    }
}

/// Every version lies in the wildcard range.  This is the law behind
/// `VersionRange::compare` always answering true for a range parsed from
/// `*`.
pub proof fn lemma_wildcard_matches_all(range: VersionRange, v: Version)
    requires
        range@ is None,
    ensures
        range_matches(range@, v@),
{
}

impl VersionRange {
    /// Whether `version` lies in this range: true for the wildcard, and
    /// otherwise true exactly when every present bound accepts it.
    pub fn compare(&self, version: &Version) -> (r: bool)
        ensures
            r == range_matches(self@, version@),
    {
        match &self._range_data {
            None => true,
            Some(range_data) => {
                if let Some(v) = &range_data.strictly_earlier {
                    proof {
                        lemma_num_seq_trichotomy(version@.nums, v@.nums);
                        lemma_num_seq_trichotomy(v@.nums, version@.nums);
                    }
                    if *version >= *v {
                        return false;
                    }
                }
                if let Some(v) = &range_data.earlier_or_equal {
                    proof {
                        lemma_num_seq_trichotomy(version@.nums, v@.nums);
                        lemma_num_seq_trichotomy(v@.nums, version@.nums);
                    }
                    if *version > *v {
                        return false;
                    }
                }
                if let Some(v) = &range_data.exactly_equal {
                    if *version != *v {
                        return false;
                    }
                }
                if let Some(v) = &range_data.later_or_equal {
                    proof {
                        lemma_num_seq_trichotomy(version@.nums, v@.nums);
                        lemma_num_seq_trichotomy(v@.nums, version@.nums);
                    }
                    if *version < *v {
                        return false;
                    }
                }
                if let Some(v) = &range_data.strictly_later {
                    proof {
                        lemma_num_seq_trichotomy(version@.nums, v@.nums);
                        lemma_num_seq_trichotomy(v@.nums, version@.nums);
                    }
                    if *version <= *v {
                        return false;
                    }
                }
                true
            },
        }
    }
}

impl Clone for VersionRange {
    /// A clone has the same view: the same bounds, or the wildcard.
    fn clone(&self) -> (r: Self)
        ensures
            r@ == self@,
    {
        VersionRange {
            _range_data: match &self._range_data {
                Some(rd) => Some(rd.clone()),
                None => None,
            },
        }
    }
}

impl Default for VersionRange {
    /// The default range is the wildcard: it constrains nothing.
    fn default() -> (r: Self)
        ensures
            r@ is None,
    {
        VersionRange { _range_data: None }
    }
}

// ---------------------------------------------------------------------------
// Parsing version ranges
// ---------------------------------------------------------------------------

/// The relation kind a symbol token names, if any.
pub open spec fn sym_type(tok: Seq<char>) -> Option<VersionRangeInsertType> {
    if tok == ">>"@ || tok == ">"@ {
        Some(VersionRangeInsertType::StrictlyLater)
    } else if tok == ">="@ {
        Some(VersionRangeInsertType::LaterOrEqual)
    } else if tok == "="@ || tok == "=="@ {
        Some(VersionRangeInsertType::ExactlyEqual)
    } else if tok == "<="@ {
        Some(VersionRangeInsertType::EarlierOrEqual)
    } else if tok == "<<"@ || tok == "<"@ {
        Some(VersionRangeInsertType::StrictlyEarlier)
    } else {
        None
    }
}

/// The view of the version a digit-holding string parses to.
pub open spec fn version_view_of(s: Seq<char>) -> VersionView {
    VersionView { literal: s, nums: version_nums(s), seps: version_seps(s) }
}

/// What one comma-separated term means: a bare version is an exact-match
/// term, a `<symbol> <version>` pair names its relation, and anything else
/// is a parse error carrying its message.
pub open spec fn term_of(part: Seq<char>) -> Result<(Seq<char>, VersionRangeInsertType), Seq<char>> {
    let toks = split_ws_spec(part);
    if toks.len() == 1 {
        Ok((toks[0], VersionRangeInsertType::ExactlyEqual))
    } else if toks.len() == 2 {
        match sym_type(toks[0]) {
            Some(ty) => Ok((toks[1], ty)),
            None => Err("Invalid relation symbol: "@ + toks[0]),
        }
    } else {
        Err("Invalid range format: "@ + part)
    }
}

/// Folds the comma-separated terms from position `k` on into the bound
/// data: the term `*` clears every bound and ends the walk; a contradiction
/// or a malformed term rejects the whole range with its message.
pub open spec fn range_fold(
    parts: Seq<Seq<char>>,
    k: int,
    rd: RangeDataView,
    orig: Seq<char>,
) -> Result<Option<RangeDataView>, Seq<char>>
    decreases parts.len() - k,
{
    if k < 0 || k >= parts.len() {
        Ok(Some(rd))
    } else {
        let part = trim_spec(parts[k]);
        if part == "*"@ {
            Ok(None)
        } else {
            match term_of(part) {
                Err(m) => Err(m),
                Ok(t) => {
                    if version_nums(t.0).len() == 0 {
                        Err("There is no values for Version struct."@)
                    } else {
                        match insert_model(version_view_of(t.0), rd, t.1) {
                            None => Err("Conflicting version range: "@ + orig),
                            Some(rd2) => range_fold(parts, k + 1, rd2, orig),
                        }
                    }
                },
            }
        }
    }
}

/// What parsing a range string yields: its trimmed text split on commas and
/// folded term by term into bound data, starting from no bounds.
pub open spec fn range_parse_model(s: Seq<char>) -> Result<Option<RangeDataView>, Seq<char>> {
    range_fold(split_spec(trim_spec(s), ','), 0, empty_range_data(), s)
}

impl VersionRange {
    /// Parses a version range string per [`range_parse_model`]: a
    /// comma-separated conjunction of terms, where `*` clears all bounds,
    /// and a contradiction between bounds rejects the whole string.
    pub fn parse(s: &str) -> (r: Result<VersionRange, String>)
        ensures
            match range_parse_model(s@) {
                Ok(o) => r matches Ok(vr) && vr@ == o,
                Err(m) => r matches Err(e) && e@ == m,
            },
    {
        let cs = to_chars(s);
        let trimmed = trim_chars(&cs);
        let parts = split_chars(&trimmed, ',');
        let star = to_chars("*");
        let sym_gt2 = to_chars(">>");
        let sym_gt = to_chars(">");
        let sym_ge = to_chars(">=");
        let sym_eq1 = to_chars("=");
        let sym_eq2 = to_chars("==");
        let sym_le = to_chars("<=");
        let sym_lt2 = to_chars("<<");
        let sym_lt = to_chars("<");
        let mut rd = RangeData {
            strictly_earlier: None,
            earlier_or_equal: None,
            exactly_equal: None,
            later_or_equal: None,
            strictly_later: None,
        };
        let ghost pdv = parts.deep_view();
        let mut k: usize = 0;
        while k < parts.len()
            invariant
                parts.deep_view() == pdv,
                pdv == split_spec(trim_spec(s@), ','),
                0 <= k <= pdv.len(),
                parts@.len() == pdv.len(),
                star@ == "*"@,
                sym_gt2@ == ">>"@,
                sym_gt@ == ">"@,
                sym_ge@ == ">="@,
                sym_eq1@ == "="@,
                sym_eq2@ == "=="@,
                sym_le@ == "<="@,
                sym_lt2@ == "<<"@,
                sym_lt@ == "<"@,
                range_fold(pdv, k as int, rd@, s@) == range_fold(pdv, 0, empty_range_data(), s@),
            decreases parts@.len() - k,
        {
            proof {
                assert(pdv[k as int] == parts@[k as int]@);
            }
            let part = trim_chars(&parts[k]);
            if chars_eq(&part, &star) {
                return Ok(VersionRange { _range_data: None });
            }
            let toks = split_whitespace_chars(&part);
            proof {
                assert(toks.deep_view() == split_ws_spec(part@));
                if toks@.len() > 0 {
                    assert(toks.deep_view()[0] == toks@[0]@);
                }
                if toks@.len() > 1 {
                    assert(toks.deep_view()[1] == toks@[1]@);
                }
            }
            let (vchars, ty): (&Vec<char>, VersionRangeInsertType) = if toks.len() == 1 {
                (&toks[0], VersionRangeInsertType::ExactlyEqual)
            } else if toks.len() == 2 {
                let sym = &toks[0];
                let ty = if chars_eq(sym, &sym_gt2) || chars_eq(sym, &sym_gt) {
                    VersionRangeInsertType::StrictlyLater
                } else if chars_eq(sym, &sym_ge) {
                    VersionRangeInsertType::LaterOrEqual
                } else if chars_eq(sym, &sym_eq1) || chars_eq(sym, &sym_eq2) {
                    VersionRangeInsertType::ExactlyEqual
                } else if chars_eq(sym, &sym_le) {
                    VersionRangeInsertType::EarlierOrEqual
                } else if chars_eq(sym, &sym_lt2) || chars_eq(sym, &sym_lt) {
                    VersionRangeInsertType::StrictlyEarlier
                } else {
                    let mut msg = "Invalid relation symbol: ".to_owned();
                    msg.append(from_chars(sym.as_slice()).as_str());
                    return Err(msg);
                };
                (&toks[1], ty)
            } else {
                let mut msg = "Invalid range format: ".to_owned();
                msg.append(from_chars(part.as_slice()).as_str());
                return Err(msg);
            };
            let vstring = from_chars(vchars.as_slice());
            let version = match Version::parse(vstring.as_str()) {
                Ok(v) => v,
                Err(e) => {
                    return Err(e);
                },
            };
            match version.insert_to_range_data(Some(rd), ty) {
                Some(next) => {
                    rd = next;
                },
                None => {
                    let mut msg = "Conflicting version range: ".to_owned();
                    msg.append(s);
                    return Err(msg);
                },
            }
            k = k + 1;
        }
        Ok(VersionRange { _range_data: Some(rd) })
    }
}

impl core::str::FromStr for VersionRange {
    type Err = String;

    fn from_str(s: &str) -> Result<Self, String> {
        VersionRange::parse(s)
    }
}

// ---------------------------------------------------------------------------
// Displaying version ranges
// ---------------------------------------------------------------------------

/// The display clause of one bound, as a singleton, or nothing.
pub open spec fn bound_part(prefix: Seq<char>, o: Option<VersionView>) -> Seq<Seq<char>> {
    match o {
        Some(v) => seq![prefix + v.literal],
        None => Seq::empty(),
    }
}

/// The display clauses of the present bounds, in display order.
pub open spec fn range_parts(rd: RangeDataView) -> Seq<Seq<char>> {
    bound_part("< "@, rd.strictly_earlier) + bound_part("<= "@, rd.earlier_or_equal) + bound_part(
        "== "@,
        rd.exactly_equal,
    ) + bound_part(">= "@, rd.later_or_equal) + bound_part("> "@, rd.strictly_later)
}

/// The display string of a range: `*` for the wildcard (or when no bound is
/// present), else the bound clauses joined with commas.
pub open spec fn range_display(rv: Option<RangeDataView>) -> Seq<char> {
    match rv {
        None => "*"@,
        Some(rd) => if range_parts(rd).len() == 0 {
            "*"@
        } else {
            join_spec(range_parts(rd), ", "@)
        },
    }
}

impl VersionRange {
    /// Renders this range as `*`, or as its bound clauses (`< v`, `<= v`,
    /// `== v`, `>= v`, `> v`) joined with commas, each bound showing the
    /// literal text of its version.
    pub fn to_string(&self) -> (r: String)
        ensures
            r@ == range_display(self@),
    {
        match &self._range_data {
            None => "*".to_owned(),
            Some(rd) => {
                let mut parts: Vec<String> = Vec::new();
                if let Some(v) = &rd.strictly_earlier {
                    let mut p = "< ".to_owned();
                    p.append(v.string.as_str());
                    parts.push(p);
                }
                if let Some(v) = &rd.earlier_or_equal {
                    let mut p = "<= ".to_owned();
                    p.append(v.string.as_str());
                    parts.push(p);
                }
                if let Some(v) = &rd.exactly_equal {
                    let mut p = "== ".to_owned();
                    p.append(v.string.as_str());
                    parts.push(p);
                }
                if let Some(v) = &rd.later_or_equal {
                    let mut p = ">= ".to_owned();
                    p.append(v.string.as_str());
                    parts.push(p);
                }
                if let Some(v) = &rd.strictly_later {
                    let mut p = "> ".to_owned();
                    p.append(v.string.as_str());
                    parts.push(p);
                }
                proof {
                    assert(parts.deep_view() =~~= range_parts(rd@));
                }
                if parts.len() == 0 {
                    "*".to_owned()
                } else {
                    join_strings(&parts, ", ")
                }
            },
        }
    }
}


impl Default for Version {
    /// The default version is `1.0.0`.
    fn default() -> (r: Self)
        ensures
            r.wf(),
            r.literal() == "1.0.0"@,
    {
        let r = Version::parse("1.0.0");
        proof {
            reveal_strlit("1.0.0");
            let s = "1.0.0"@;
            let run = s.subrange(0, 1);
            assert(run.drop_last() =~= Seq::<char>::empty());
            assert(digits_val(Seq::<char>::empty()) == 0);
            assert(run.last() == '1');
            assert(digits_val(run) == 1);
            assert(digit_run_at(s, 0, 1));
            lemma_version_digit_run(s, 0, 1);
        }
        r.unwrap()
    }
}

/// Versions are totally ordered by their numeric sequences, consistently
/// with their equality: for any two versions exactly one of earlier,
/// equal, later holds, the order is transitive, and two versions compare
/// equal exactly when their numeric sequences are equal.
pub proof fn lemma_version_order(a: Version, b: Version, c: Version)
    ensures
        a.spec_lt(&b) ==> !b.spec_lt(&a) && !a.spec_eq(&b),
        !a.spec_lt(&b) && !b.spec_lt(&a) ==> a.spec_eq(&b),
        a.spec_lt(&b) && b.spec_lt(&c) ==> a.spec_lt(&c),
{
    lemma_num_seq_trichotomy(a.nums_seq(), b.nums_seq());
    if a.spec_lt(&b) && b.spec_lt(&c) {
        lemma_num_seq_lt_trans(a.nums_seq(), b.nums_seq(), c.nums_seq());
    }
}

/// The range string `*` parses to the wildcard range, which constrains
/// nothing.
pub proof fn lemma_star_parses_wildcard()
    ensures
        range_parse_model("*"@) == Ok::<Option<RangeDataView>, Seq<char>>(None),
{
    reveal_strlit("*");
    let s = "*"@;
    assert(!crate::strutil::is_space_char('*'));
    assert(trim_front(s) == s);
    assert(trim_back(s) == s);
    assert(s.drop_last() =~= Seq::<char>::empty());
    assert(split_state(Seq::<char>::empty(), ',') == (Seq::<Seq<char>>::empty(), Seq::<char>::empty()));
    let st = split_state(s, ',');
    assert(st.0 == Seq::<Seq<char>>::empty());
    assert(st.1 =~= s);
    let parts = split_spec(s, ',');
    assert(parts.len() == 1 && parts[0] == s);
    assert(range_fold(parts, 0, empty_range_data(), s) == Ok::<Option<RangeDataView>, Seq<char>>(None));
}

} // verus!
