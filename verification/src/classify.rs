//! Query classification: decides whether a raw query names a domain, an
//! IP address, or an autonomous-system number, and produces the
//! normalized text form that the endpoint resolver substitutes into a
//! URL template.

use vstd::prelude::*;
use vstd::string::StrSliceExecFns;

verus! {

/// ASCII whitespace; the trimming this crate performs at the edges of a
/// query before any classification rule runs.
pub open spec fn is_space(c: char) -> bool {
    c == ' ' || c == '\t' || c == '\n' || c == '\r'
}

/// The letters whose leading run is stripped from a query before it is
/// read as an AS number.
pub open spec fn in_asn_set(c: char) -> bool {
    c == 'A' || c == 'a' || c == 'S' || c == 's'
}

pub open spec fn is_digit(c: char) -> bool {
    48 <= c as u32 <= 57
}

pub open spec fn is_hex_digit(c: char) -> bool {
    is_digit(c) || 97 <= c as u32 <= 102 || 65 <= c as u32 <= 70
}

pub open spec fn trim_front(s: Seq<char>) -> Seq<char>
    decreases s.len(),
{
    if s.len() > 0 && is_space(s[0]) {
        trim_front(s.drop_first())
    } else {
        s
    }
}

pub open spec fn trim_back(s: Seq<char>) -> Seq<char>
    decreases s.len(),
{
    if s.len() > 0 && is_space(s[s.len() - 1]) {
        trim_back(s.drop_last())
    } else {
        s
    }
}

/// The whitespace-trimmed form of a query.
pub open spec fn trim_spec(s: Seq<char>) -> Seq<char> {
    trim_back(trim_front(s))
}

proof fn lemma_trim_front_skip(s: Seq<char>, i: int)
    requires
        0 <= i <= s.len(),
        forall|j: int| 0 <= j < i ==> is_space(s[j]),
        i < s.len() ==> !is_space(s[i]),
    ensures
        trim_front(s) == s.skip(i),
    decreases i,
{
    if i == 0 {
        assert(s.skip(0) =~= s);
    } else {
        assert(s.drop_first() =~= s.skip(1));
        lemma_trim_front_skip(s.skip(1), i - 1);
        assert(s.skip(1).skip(i - 1) =~= s.skip(i));
    }
}

proof fn lemma_trim_back_take(s: Seq<char>, i: int)
    requires
        0 <= i <= s.len(),
        forall|j: int| i <= j < s.len() ==> is_space(s[j]),
        i > 0 ==> !is_space(s[i - 1]),
    ensures
        trim_back(s) == s.take(i),
    decreases s.len() - i,
{
    if i == s.len() {
        assert(s.take(i) =~= s);
    } else {
        assert(is_space(s[s.len() - 1]));
        assert(s.drop_last() =~= s.take(s.len() - 1));
        lemma_trim_back_take(s.take(s.len() - 1), i);
        assert(s.take(s.len() - 1).take(i) =~= s.take(i));
    }
}

fn is_space_char(c: char) -> (b: bool)
    ensures
        b == is_space(c),
{
    c == ' ' || c == '\t' || c == '\n' || c == '\r'
}

fn in_asn_set_char(c: char) -> (b: bool)
    ensures
        b == in_asn_set(c),
{
    c == 'A' || c == 'a' || c == 'S' || c == 's'
}

fn is_digit_char(c: char) -> (b: bool)
    ensures
        b == is_digit(c),
{
    let u = c as u32;
    48 <= u && u <= 57
}

fn is_hex_digit_char(c: char) -> (b: bool)
    ensures
        b == is_hex_digit(c),
{
    let u = c as u32;
    (48 <= u && u <= 57) || (97 <= u && u <= 102) || (65 <= u && u <= 70)
}

/// The query after the leading run of characters from the AS-prefix
/// letter set has been removed.
pub open spec fn asn_strip(s: Seq<char>) -> Seq<char>
    decreases s.len(),
{
    if s.len() > 0 && in_asn_set(s[0]) {
        asn_strip(s.drop_first())
    } else {
        s
    }
}

proof fn lemma_asn_strip_skip(s: Seq<char>, i: int)
    requires
        0 <= i <= s.len(),
        forall|j: int| 0 <= j < i ==> in_asn_set(s[j]),
        i < s.len() ==> !in_asn_set(s[i]),
    ensures
        asn_strip(s) == s.skip(i),
    decreases i,
{
    if i == 0 {
        assert(s.skip(0) =~= s);
    } else {
        assert(s.drop_first() =~= s.skip(1));
        lemma_asn_strip_skip(s.skip(1), i - 1);
        assert(s.skip(1).skip(i - 1) =~= s.skip(i));
    }
}

pub open spec fn all_digits(s: Seq<char>) -> bool {
    forall|j: int| 0 <= j < s.len() ==> is_digit(s[j])
}

/// The number a run of decimal digits denotes.
pub open spec fn digits_value(s: Seq<char>) -> int
    decreases s.len(),
{
    if s.len() == 0 {
        0
    } else {
        digits_value(s.drop_last()) * 10 + (s[s.len() - 1] as u32 - 48)
    }
}

/// A non-empty run of decimal digits whose value fits in 32 bits.
pub open spec fn is_u32_text(s: Seq<char>) -> bool {
    s.len() > 0 && all_digits(s) && digits_value(s) <= u32::MAX
}

proof fn lemma_digits_prefix_exceeds(s: Seq<char>, i: int, m: int)
    requires
        all_digits(s),
        0 <= i <= s.len(),
        m >= 0,
        digits_value(s.take(i)) > m,
    ensures
        digits_value(s) > m,
    decreases s.len() - i,
{
    if i == s.len() {
        assert(s.take(i) =~= s);
    } else {
        assert(s.take(i + 1).drop_last() =~= s.take(i));
        assert(is_digit(s[i]));
        assert(digits_value(s.take(i + 1)) == digits_value(s.take(i)) * 10 + (s[i] as u32 - 48));
        lemma_digits_prefix_exceeds(s, i + 1, m);
    }
}

proof fn lemma_digits_small(s: Seq<char>)
    requires
        all_digits(s),
        s.len() <= 3,
    ensures
        digits_value(s) >= 0,
        s.len() <= 1 ==> digits_value(s) <= 9,
        s.len() <= 2 ==> digits_value(s) <= 99,
        digits_value(s) <= 999,
    decreases s.len(),
{
    if s.len() > 0 {
        assert(all_digits(s.drop_last()));
        lemma_digits_small(s.drop_last());
    }
}

/// Parses a non-empty all-digit string as an unsigned 32-bit value.
pub fn parse_u32_str(s: &str) -> (r: Option<u32>)
    ensures
        match r {
            Some(v) => is_u32_text(s@) && v == digits_value(s@),
            None => !is_u32_text(s@),
        },
{
    let n = s.unicode_len();
    if n == 0 {
        return None;
    }
    let mut acc: u64 = 0;
    let mut i: usize = 0;
    while i < n
        invariant
            n == s@.len(),
            0 <= i <= n,
            forall|j: int| 0 <= j < i ==> is_digit(s@[j]),
            acc == digits_value(s@.take(i as int)),
            acc <= u32::MAX,
        decreases n - i,
    {
        let c = s.get_char(i);
        if !is_digit_char(c) {
            return None;
        }
        let d = (c as u32 - 48) as u64;
        proof {
            assert(s@.take(i + 1).drop_last() =~= s@.take(i as int));
        }
        acc = acc * 10 + d;
        i = i + 1;
        if acc > u32::MAX as u64 {
            proof {
                if all_digits(s@) {
                    lemma_digits_prefix_exceeds(s@, i as int, u32::MAX as int);
                }
            }
            return None;
        }
    }
    proof {
        assert(s@.take(n as int) =~= s@);
    }
    Some(acc as u32)
}

/// The index of the first occurrence of `c`, or a negative value when
/// `c` does not occur.
pub open spec fn first_pos(s: Seq<char>, c: char) -> int
    decreases s.len(),
{
    if s.len() == 0 {
        -1
    } else if s[0] == c {
        0
    } else {
        let r = first_pos(s.drop_first(), c);
        if r < 0 {
            -1
        } else {
            r + 1
        }
    }
}

proof fn lemma_first_pos_at(s: Seq<char>, c: char, i: int)
    requires
        0 <= i <= s.len(),
        forall|j: int| 0 <= j < i ==> s[j] != c,
        i < s.len() ==> s[i] == c,
    ensures
        first_pos(s, c) == if i < s.len() {
            i
        } else {
            -1
        },
    decreases i,
{
    if i > 0 {
        assert(s.drop_first() =~= s.skip(1));
        lemma_first_pos_at(s.skip(1), c, i - 1);
    }
}

pub open spec fn contains_dot(s: Seq<char>) -> bool {
    first_pos(s, '.') >= 0
}

/// Finds the first occurrence of `c` within `[from, to)`.
fn find_char_in(s: &str, c: char, from: usize, to: usize) -> (r: Option<usize>)
    requires
        from <= to <= s@.len(),
    ensures
        ({
            let f = first_pos(s@.subrange(from as int, to as int), c);
            match r {
                Some(j) => from <= j < to && f == j - from && s@[j as int] == c,
                None => f == -1,
            }
        }),
{
    let ghost sub = s@.subrange(from as int, to as int);
    let mut i: usize = from;
    while i < to
        invariant
            from <= i <= to <= s@.len(),
            sub == s@.subrange(from as int, to as int),
            forall|j: int| from <= j < i ==> s@[j] != c,
        decreases to - i,
    {
        if s.get_char(i) == c {
            proof {
                assert(forall|j: int| 0 <= j < i - from ==> sub[j] == s@[from + j]);
                lemma_first_pos_at(sub, c, i - from);
            }
            return Some(i);
        }
        i = i + 1;
    }
    proof {
        assert(forall|j: int| 0 <= j < sub.len() ==> sub[j] == s@[from + j]);
        lemma_first_pos_at(sub, c, sub.len() as int);
    }
    None
}

/// A dotted-quad part: one to three digits, value at most 255, with no
/// superfluous leading zero.
pub open spec fn valid_octet(s: Seq<char>) -> bool {
    &&& 1 <= s.len() <= 3
    &&& all_digits(s)
    &&& digits_value(s) <= 255
    &&& s.len() > 1 ==> s[0] != '0'
}

/// A hexadecimal address group: one to four hex digits.
pub open spec fn is_group(s: Seq<char>) -> bool {
    1 <= s.len() <= 4 && forall|j: int| 0 <= j < s.len() ==> is_hex_digit(s[j])
}

/// Dot-separated octets, as in the textual form of an IPv4 address.
pub open spec fn octet_list(s: Seq<char>) -> bool
    decreases s.len(),
{
    let j = first_pos(s, '.');
    if j < 0 {
        valid_octet(s)
    } else if j < s.len() {
        valid_octet(s.take(j)) && octet_list(s.skip(j + 1))
    } else {
        false
    }
}

pub open spec fn octet_count(s: Seq<char>) -> nat
    decreases s.len(),
{
    let j = first_pos(s, '.');
    if 0 <= j < s.len() {
        1 + octet_count(s.skip(j + 1))
    } else {
        1
    }
}

/// Colon-separated hexadecimal groups.
pub open spec fn group_list(s: Seq<char>) -> bool
    decreases s.len(),
{
    let j = first_pos(s, ':');
    if j < 0 {
        is_group(s)
    } else if j < s.len() {
        is_group(s.take(j)) && group_list(s.skip(j + 1))
    } else {
        false
    }
}

pub open spec fn group_count(s: Seq<char>) -> nat
    decreases s.len(),
{
    let j = first_pos(s, ':');
    if 0 <= j < s.len() {
        1 + group_count(s.skip(j + 1))
    } else {
        1
    }
}

/// A valid dotted-quad IPv4 literal: exactly four valid octets.
pub open spec fn is_ipv4(s: Seq<char>) -> bool {
    octet_list(s) && octet_count(s) == 4
}

/// The index of the first adjacent colon pair, or a negative value.
pub open spec fn first_dcolon(s: Seq<char>) -> int
    decreases s.len(),
{
    if s.len() < 2 {
        -1
    } else if s[0] == ':' && s[1] == ':' {
        0
    } else {
        let r = first_dcolon(s.drop_first());
        if r < 0 {
            -1
        } else {
            r + 1
        }
    }
}

pub open spec fn side_ok(s: Seq<char>) -> bool {
    s.len() == 0 || group_list(s)
}

pub open spec fn side_groups(s: Seq<char>) -> nat {
    if s.len() == 0 {
        0nat
    } else {
        group_count(s)
    }
}

/// Colon-separated hexadecimal groups whose final part may instead be
/// a dotted-quad IPv4 tail, as the mixed textual form allows at the
/// end of an address.
pub open spec fn tail_list(s: Seq<char>) -> bool
    decreases s.len(),
{
    let j = first_pos(s, ':');
    if j < 0 {
        is_group(s) || is_ipv4(s)
    } else if j < s.len() {
        is_group(s.take(j)) && tail_list(s.skip(j + 1))
    } else {
        false
    }
}

/// How many 16-bit units such a list stands for: one per group, two
/// for a dotted-quad tail.
pub open spec fn tail_units(s: Seq<char>) -> nat
    decreases s.len(),
{
    let j = first_pos(s, ':');
    if 0 <= j < s.len() {
        1 + tail_units(s.skip(j + 1))
    } else if is_ipv4(s) {
        2
    } else {
        1
    }
}

pub open spec fn tail_side_ok(s: Seq<char>) -> bool {
    s.len() == 0 || tail_list(s)
}

pub open spec fn tail_side_units(s: Seq<char>) -> nat {
    if s.len() == 0 {
        0nat
    } else {
        tail_units(s)
    }
}

/// A valid IPv6 literal in its textual forms: eight 16-bit units —
/// hexadecimal groups, with the final part optionally a dotted-quad
/// IPv4 tail standing for two units — or a single `::` run standing
/// for at least one zero unit, flanked by at most seven units in
/// total; a tail can only close the address, so only the part after
/// the `::` may hold one.
pub open spec fn is_ipv6(s: Seq<char>) -> bool {
    let i = first_dcolon(s);
    if i < 0 {
        tail_list(s) && tail_units(s) == 8
    } else {
        &&& i + 2 <= s.len()
        &&& side_ok(s.take(i))
        &&& tail_side_ok(s.skip(i + 2))
        &&& side_groups(s.take(i)) + tail_side_units(s.skip(i + 2)) <= 7
    }
}

proof fn lemma_first_dcolon_at(s: Seq<char>, i: int)
    requires
        0 <= i,
        i + 1 <= s.len(),
        forall|j: int| 0 <= j < i ==> !((#[trigger] s[j]) == ':' && s[j + 1] == ':'),
        i + 1 < s.len() ==> (s[i] == ':' && s[i + 1] == ':'),
    ensures
        first_dcolon(s) == if i + 1 < s.len() {
            i
        } else {
            -1
        },
    decreases i,
{
    if i > 0 {
        assert(s.drop_first() =~= s.skip(1));
        assert(forall|j: int| 0 <= j < i - 1 ==> !((#[trigger] s.skip(1)[j]) == ':' && s.skip(1)[j + 1] == ':'));
        lemma_first_dcolon_at(s.skip(1), i - 1);
        assert(!(s[0] == ':' && s[1] == ':'));
    }
}

/// Checks that `[a, b)` holds a single valid hexadecimal group.
fn check_group(s: &str, a: usize, b: usize) -> (r: bool)
    requires
        a <= b <= s@.len(),
    ensures
        r == is_group(s@.subrange(a as int, b as int)),
{
    let ghost sub = s@.subrange(a as int, b as int);
    if b - a < 1 || b - a > 4 {
        return false;
    }
    let mut j: usize = a;
    while j < b
        invariant
            a <= j <= b <= s@.len(),
            sub == s@.subrange(a as int, b as int),
            forall|k: int| 0 <= k < j - a ==> is_hex_digit(sub[k]),
        decreases b - j,
    {
        if !is_hex_digit_char(s.get_char(j)) {
            proof {
                assert(sub[j - a] == s@[j as int]);
            }
            return false;
        }
        proof {
            assert(sub[j - a] == s@[j as int]);
        }
        j = j + 1;
    }
    true
}

/// Checks that `[a, b)` holds a single valid dotted-quad octet.
fn check_octet(s: &str, a: usize, b: usize) -> (r: bool)
    requires
        a <= b <= s@.len(),
    ensures
        r == valid_octet(s@.subrange(a as int, b as int)),
{
    let ghost sub = s@.subrange(a as int, b as int);
    if b - a < 1 || b - a > 3 {
        return false;
    }
    let mut acc: u32 = 0;
    let mut j: usize = a;
    while j < b
        invariant
            a <= j <= b <= s@.len(),
            b - a <= 3,
            sub == s@.subrange(a as int, b as int),
            forall|k: int| 0 <= k < j - a ==> is_digit(sub[k]),
            acc == digits_value(sub.take(j - a)),
            acc <= 999,
        decreases b - j,
    {
        let c = s.get_char(j);
        proof {
            assert(sub[j - a] == s@[j as int]);
        }
        if !is_digit_char(c) {
            return false;
        }
        proof {
            assert(sub.take(j - a + 1).drop_last() =~= sub.take(j - a));
            assert(all_digits(sub.take(j - a)));
            lemma_digits_small(sub.take(j - a));
        }
        acc = acc * 10 + (c as u32 - 48);
        j = j + 1;
    }
    proof {
        assert(sub.take(b - a) =~= sub);
    }
    if acc > 255 {
        return false;
    }
    if b - a > 1 && s.get_char(a) == '0' {
        proof {
            assert(sub[0] == s@[a as int]);
        }
        return false;
    }
    proof {
        if b - a > 1 {
            assert(sub[0] == s@[a as int]);
        }
    }
    true
}

/// Saturates a list count at `cap`, which is past every count the
/// address grammars distinguish.
spec fn capped(n: nat, cap: nat) -> nat {
    if n <= cap {
        n
    } else {
        cap + 1
    }
}

/// Validates `[from, to)` as dot-separated octets, counting them,
/// saturated just past four.
fn check_octets(s: &str, from: usize, to: usize) -> (r: Option<usize>)
    requires
        from <= to <= s@.len(),
    ensures
        ({
            let sub = s@.subrange(from as int, to as int);
            match r {
                Some(c) => octet_list(sub) && c == capped(octet_count(sub), 4),
                None => !octet_list(sub),
            }
        }),
    decreases to - from,
{
    let ghost sub = s@.subrange(from as int, to as int);
    match find_char_in(s, '.', from, to) {
        None => {
            if check_octet(s, from, to) {
                Some(1)
            } else {
                None
            }
        },
        Some(j) => {
            proof {
                assert(sub.take(j - from) =~= s@.subrange(from as int, j as int));
                assert(sub.skip(j - from + 1) =~= s@.subrange(j + 1, to as int));
            }
            if !check_octet(s, from, j) {
                return None;
            }
            match check_octets(s, j + 1, to) {
                None => None,
                Some(c) => {
                    if c >= 5 {
                        Some(5)
                    } else {
                        Some(c + 1)
                    }
                },
            }
        },
    }
}

/// Validates `[from, to)` as colon-separated hexadecimal groups,
/// counting them, saturated just past eight.
fn check_groups(s: &str, from: usize, to: usize) -> (r: Option<usize>)
    requires
        from <= to <= s@.len(),
    ensures
        ({
            let sub = s@.subrange(from as int, to as int);
            match r {
                Some(c) => group_list(sub) && c == capped(group_count(sub), 8),
                None => !group_list(sub),
            }
        }),
    decreases to - from,
{
    let ghost sub = s@.subrange(from as int, to as int);
    match find_char_in(s, ':', from, to) {
        None => {
            if check_group(s, from, to) {
                Some(1)
            } else {
                None
            }
        },
        Some(j) => {
            proof {
                assert(sub.take(j - from) =~= s@.subrange(from as int, j as int));
                assert(sub.skip(j - from + 1) =~= s@.subrange(j + 1, to as int));
            }
            if !check_group(s, from, j) {
                return None;
            }
            match check_groups(s, j + 1, to) {
                None => None,
                Some(c) => {
                    if c >= 9 {
                        Some(9)
                    } else {
                        Some(c + 1)
                    }
                },
            }
        },
    }
}

/// Validates `[from, to)` as colon-separated groups whose final part
/// may be a dotted-quad tail, counting 16-bit units (a tail counts as
/// two), saturated just past eight.
fn check_tail(s: &str, from: usize, to: usize) -> (r: Option<usize>)
    requires
        from <= to <= s@.len(),
    ensures
        ({
            let sub = s@.subrange(from as int, to as int);
            match r {
                Some(c) => tail_list(sub) && c == capped(tail_units(sub), 8),
                None => !tail_list(sub),
            }
        }),
    decreases to - from,
{
    let ghost sub = s@.subrange(from as int, to as int);
    match find_char_in(s, ':', from, to) {
        None => {
            let quad = match check_octets(s, from, to) {
                Some(c) => c == 4,
                None => false,
            };
            if quad {
                Some(2)
            } else if check_group(s, from, to) {
                Some(1)
            } else {
                None
            }
        },
        Some(j) => {
            proof {
                assert(sub.take(j - from) =~= s@.subrange(from as int, j as int));
                assert(sub.skip(j - from + 1) =~= s@.subrange(j + 1, to as int));
            }
            if !check_group(s, from, j) {
                return None;
            }
            match check_tail(s, j + 1, to) {
                None => None,
                Some(c) => {
                    if c >= 9 {
                        Some(9)
                    } else {
                        Some(c + 1)
                    }
                },
            }
        },
    }
}

/// Decides whether the whole string is a valid dotted-quad IPv4 literal.
pub fn is_ipv4_str(s: &str) -> (r: bool)
    ensures
        r == is_ipv4(s@),
{
    let n = s.unicode_len();
    proof {
        assert(s@.subrange(0, n as int) =~= s@);
    }
    match check_octets(s, 0, n) {
        Some(c) => c == 4,
        None => false,
    }
}

/// Decides whether the whole string is a valid IPv6 literal in the
/// hexadecimal textual forms.
pub fn is_ipv6_str(s: &str) -> (r: bool)
    ensures
        r == is_ipv6(s@),
{
    let n = s.unicode_len();
    // locate the first adjacent colon pair
    let mut i: usize = 0;
    let mut dc: Option<usize> = None;
    while dc.is_none() && i < n && i + 1 < n
        invariant
            n == s@.len(),
            0 <= i,
            i <= n,
            match dc {
                Some(k) => 0 <= k && k + 1 < n && s@[k as int] == ':' && s@[k + 1] == ':'
                    && forall|j: int| 0 <= j < k ==> !((#[trigger] s@[j]) == ':' && s@[j + 1] == ':'),
                None => forall|j: int| 0 <= j < i ==> !((#[trigger] s@[j]) == ':' && s@[j + 1] == ':'),
            },
        decreases n - i,
    {
        if s.get_char(i) == ':' && s.get_char(i + 1) == ':' {
            dc = Some(i);
        }
        i = i + 1;
    }
    match dc {
        None => {
            proof {
                if n >= 1 {
                    lemma_first_dcolon_at(s@, n - 1);
                } else {
                    assert(first_dcolon(s@) == -1);
                }
                assert(s@.subrange(0, n as int) =~= s@);
            }
            match check_tail(s, 0, n) {
                Some(c) => c == 8,
                None => false,
            }
        },
        Some(k) => {
            proof {
                lemma_first_dcolon_at(s@, k as int);
                assert(s@.take(k as int) =~= s@.subrange(0, k as int));
                assert(s@.skip(k + 2) =~= s@.subrange(k + 2, n as int));
            }
            let left: Option<usize> = if k == 0 {
                Some(0)
            } else {
                check_groups(s, 0, k)
            };
            let right: Option<usize> = if k + 2 == n {
                Some(0)
            } else {
                check_tail(s, k + 2, n)
            };
            match (left, right) {
                (Some(a), Some(b)) => a + b <= 7,
                _ => false,
            }
        },
    }
}

/// Strips leading and trailing ASCII whitespace.
pub fn trim_str(s: &str) -> (r: &str)
    ensures
        r@ == trim_spec(s@),
{
    let n = s.unicode_len();
    let mut lo: usize = 0;
    while lo < n && is_space_char(s.get_char(lo))
        invariant
            n == s@.len(),
            0 <= lo <= n,
            forall|j: int| 0 <= j < lo ==> is_space(s@[j]),
        decreases n - lo,
    {
        lo = lo + 1;
    }
    proof {
        lemma_trim_front_skip(s@, lo as int);
    }
    let mut hi: usize = n;
    while hi > lo && is_space_char(s.get_char(hi - 1))
        invariant
            n == s@.len(),
            0 <= lo <= hi <= n,
            forall|j: int| hi <= j < n ==> is_space(s@[j]),
        decreases hi,
    {
        hi = hi - 1;
    }
    proof {
        let t = s@.skip(lo as int);
        assert(forall|j: int| hi - lo <= j < t.len() ==> is_space(t[j]));
        lemma_trim_back_take(t, hi - lo);
        assert(t.take(hi - lo) =~= s@.subrange(lo as int, hi as int));
    }
    s.substring_char(lo, hi)
}


/// The shape a query was recognized as.
#[derive(Clone, Copy, Debug, PartialEq, Eq, Structural)]
pub enum Kind {
    Domain,
    Ip,
    Asn,
}

/// The query matched none of the recognized identifier shapes.
#[derive(Clone, Copy, Debug, PartialEq, Eq, Structural)]
pub struct ClassificationError;

/// A classified query: its kind together with the normalized text that
/// is substituted into the endpoint URL template.
#[derive(Clone, Debug)]
pub struct Identifier {
    pub kind: Kind,
    pub normalized: String,
}

/// The outcome classification owes a query, stated over character
/// sequences.
pub enum SpecClass {
    Asn(Seq<char>),
    Ip(Seq<char>),
    Domain(Seq<char>),
    Invalid,
}

/// The classification rules, checked in order with the first match
/// winning: a leading letter from the AS set starts an AS number with
/// that letter run stripped; then a valid IP literal; then any string
/// with a dot is a domain; then a bare 32-bit number is an AS number;
/// anything else is rejected.
pub open spec fn classify_spec(raw: Seq<char>) -> SpecClass {
    let s = trim_spec(raw);
    if s.len() > 0 && in_asn_set(s[0]) {
        SpecClass::Asn(asn_strip(s))
    } else if is_ipv4(s) || is_ipv6(s) {
        SpecClass::Ip(s)
    } else if contains_dot(s) {
        SpecClass::Domain(s)
    } else if is_u32_text(s) {
        SpecClass::Asn(s)
    } else {
        SpecClass::Invalid
    }
}

pub open spec fn class_of(k: Kind, n: Seq<char>) -> SpecClass {
    match k {
        Kind::Asn => SpecClass::Asn(n),
        Kind::Ip => SpecClass::Ip(n),
        Kind::Domain => SpecClass::Domain(n),
    }
}

/// Classifies a raw query into its kind and normalized text form.
pub fn normalize(query: &str) -> (r: Result<(Kind, String), ClassificationError>)
    ensures
        match r {
            Ok(p) => classify_spec(query@) == class_of(p.0, p.1@),
            Err(e) => classify_spec(query@) is Invalid,
        },
{
    let t = trim_str(query);
    let n = t.unicode_len();
    if n > 0 && in_asn_set_char(t.get_char(0)) {
        let mut i: usize = 0;
        while i < n && in_asn_set_char(t.get_char(i))
            invariant
                n == t@.len(),
                0 <= i <= n,
                forall|j: int| 0 <= j < i ==> in_asn_set(t@[j]),
            decreases n - i,
        {
            i = i + 1;
        }
        proof {
            lemma_asn_strip_skip(t@, i as int);
            assert(t@.skip(i as int) =~= t@.subrange(i as int, n as int));
        }
        let rest = t.substring_char(i, n);
        return Ok((Kind::Asn, rest.to_owned()));
    }
    if is_ipv4_str(t) || is_ipv6_str(t) {
        return Ok((Kind::Ip, t.to_owned()));
    }
    proof {
        assert(t@.subrange(0, n as int) =~= t@);
    }
    if let Some(_j) = find_char_in(t, '.', 0, n) {
        return Ok((Kind::Domain, t.to_owned()));
    }
    match parse_u32_str(t) {
        Some(_v) => Ok((Kind::Asn, t.to_owned())),
        None => Err(ClassificationError),
    }
}

/// Classifies a raw query, packaging the result as an [`Identifier`].
pub fn classify(query: &str) -> (r: Result<Identifier, ClassificationError>)
    ensures
        match r {
            Ok(id) => classify_spec(query@) == class_of(id.kind, id.normalized@),
            Err(e) => classify_spec(query@) is Invalid,
        },
{
    match normalize(query) {
        Ok((kind, normalized)) => Ok(Identifier { kind, normalized }),
        Err(e) => Err(e),
    }
}

proof fn lemma_trim_of_clean(s: Seq<char>)
    requires
        s.len() > 0 ==> !is_space(s[0]) && !is_space(s[s.len() - 1]),
    ensures
        trim_spec(s) == s,
{
    lemma_trim_front_skip(s, 0);
    assert(s.skip(0) =~= s);
    lemma_trim_back_take(s, s.len() as int);
    assert(s.take(s.len() as int) =~= s);
}

proof fn lemma_first_pos_found(s: Seq<char>, c: char)
    ensures
        first_pos(s, c) >= 0 ==> 0 <= first_pos(s, c) < s.len() && s[first_pos(s, c)] == c,
    decreases s.len(),
{
    if s.len() > 0 && s[0] != c {
        lemma_first_pos_found(s.drop_first(), c);
    }
}

proof fn lemma_first_dcolon_found(s: Seq<char>)
    ensures
        first_dcolon(s) >= 0 ==> ({
            let i = first_dcolon(s);
            i + 1 < s.len() && s[i] == ':' && s[i + 1] == ':'
        }),
    decreases s.len(),
{
    if s.len() >= 2 && !(s[0] == ':' && s[1] == ':') {
        lemma_first_dcolon_found(s.drop_first());
    }
}

/// Law: a query written as two AS-prefix letters (such as `AS` or `as`)
/// followed by one or more digits classifies as an AS number whose
/// normalized form is exactly the digits.
pub proof fn lemma_classify_as_prefix(p: Seq<char>, d: Seq<char>)
    requires
        p.len() == 2,
        in_asn_set(p[0]),
        in_asn_set(p[1]),
        d.len() > 0,
        all_digits(d),
    ensures
        classify_spec(p + d) == SpecClass::Asn(d),
{
    let q = p + d;
    assert(q[0] == p[0]);
    assert(q[q.len() - 1] == d[d.len() - 1]);
    assert(is_digit(d[d.len() - 1]));
    lemma_trim_of_clean(q);
    assert(q[1] == p[1]);
    assert(q[2] == d[0]);
    assert(is_digit(d[0]));
    lemma_asn_strip_skip(q, 2);
    assert(q.skip(2) =~= d);
}

/// Law: a valid IP literal classifies as an IP address, with the trimmed
/// input itself as the normalized form. For IPv6 forms this holds as
/// long as the literal does not begin with an AS-prefix letter, since
/// the AS rule is checked first; IPv4 literals always begin with a
/// digit, so no such proviso is needed for them.
pub proof fn lemma_classify_ip(raw: Seq<char>)
    requires
        ({
            let t = trim_spec(raw);
            ||| is_ipv4(t)
            ||| (is_ipv6(t) && (t.len() > 0 ==> !in_asn_set(t[0])))
        }),
    ensures
        classify_spec(raw) == SpecClass::Ip(trim_spec(raw)),
{
    let t = trim_spec(raw);
    if is_ipv4(t) {
        let j = first_pos(t, '.');
        lemma_first_pos_found(t, '.');
        if j < 0 {
            assert(valid_octet(t));
            assert(is_digit(t[0]));
        } else {
            assert(valid_octet(t.take(j)));
            assert(t.take(j).len() >= 1);
            assert(is_digit(t.take(j)[0]));
            assert(t.take(j)[0] == t[0]);
        }
    }
}

/// Law: a string containing a dot that is not a valid IP literal and
/// does not begin with an AS-prefix letter classifies as a domain.
pub proof fn lemma_classify_domain(raw: Seq<char>)
    requires
        ({
            let t = trim_spec(raw);
            &&& contains_dot(t)
            &&& !is_ipv4(t)
            &&& !is_ipv6(t)
            &&& t.len() > 0 ==> !in_asn_set(t[0])
        }),
    ensures
        classify_spec(raw) == SpecClass::Domain(trim_spec(raw)),
{
}

/// Law: a bare unsigned 32-bit number classifies as an AS number with
/// the trimmed digits as the normalized form; no earlier rule can match
/// an all-digit string.
pub proof fn lemma_classify_bare_number(raw: Seq<char>)
    requires
        is_u32_text(trim_spec(raw)),
    ensures
        classify_spec(raw) == SpecClass::Asn(trim_spec(raw)),
{
    let t = trim_spec(raw);
    assert(is_digit(t[0]));
    assert(!in_asn_set(t[0]));
    lemma_first_pos_found(t, '.');
    assert(!contains_dot(t));
    lemma_first_pos_found(t, ':');
    assert(first_pos(t, ':') < 0);
    lemma_first_dcolon_found(t);
    assert(octet_count(t) == 1);
    if is_ipv6(t) {
        assert(first_dcolon(t) < 0);
        assert(tail_units(t) == 1);
    }
}

/// Law: a query matching none of the classification rules is rejected.
pub proof fn lemma_classify_rejects(raw: Seq<char>)
    requires
        ({
            let t = trim_spec(raw);
            &&& t.len() > 0 ==> !in_asn_set(t[0])
            &&& !is_ipv4(t)
            &&& !is_ipv6(t)
            &&& !contains_dot(t)
            &&& !is_u32_text(t)
        }),
    ensures
        classify_spec(raw) is Invalid,
{
}

} // verus!
