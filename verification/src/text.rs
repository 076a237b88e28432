//! Text helpers: white space, trimming, lines and splitting.
use vstd::prelude::*;
use vstd::string::*;

verus! {

/// The character sequences of a sequence of strings.
pub open spec fn string_views(v: Seq<String>) -> Seq<Seq<char>> {
    v.map_values(|c: String| c@)
}

/// Unicode `White_Space`, the set that `char::is_whitespace` tests.
pub open spec fn is_ws(c: char) -> bool {
    let n = c as u32;
    ||| 0x9 <= n <= 0xd
    ||| n == 0x20
    ||| n == 0x85
    ||| n == 0xa0
    ||| n == 0x1680
    ||| 0x2000 <= n <= 0x200a
    ||| n == 0x2028
    ||| n == 0x2029
    ||| n == 0x202f
    ||| n == 0x205f
    ||| n == 0x3000
}

/// Every character of `s` is white space (what `s.trim().is_empty()` tests).
pub open spec fn blank(s: Seq<char>) -> bool {
    forall|i: int| 0 <= i < s.len() ==> is_ws(#[trigger] s[i])
}

/// The number of leading white-space characters.
pub open spec fn lead_ws(s: Seq<char>) -> nat
    decreases s.len(),
{
    if s.len() > 0 && is_ws(s[0]) {
        1 + lead_ws(s.subrange(1, s.len() as int))
    } else {
        0
    }
}

/// The number of trailing white-space characters.
pub open spec fn trail_ws(s: Seq<char>) -> nat
    decreases s.len(),
{
    if s.len() > 0 && is_ws(s.last()) {
        1 + trail_ws(s.drop_last())
    } else {
        0
    }
}

/// `s` without leading and trailing white space (`str::trim`).
pub open spec fn trim_spec(s: Seq<char>) -> Seq<char> {
    let t = s.skip(lead_ws(s) as int);
    t.take(t.len() - trail_ws(t))
}

/// The index of the first `c` in `s`, or the length of `s` when there is none.
pub open spec fn first_index(s: Seq<char>, c: char) -> nat
    decreases s.len(),
{
    if s.len() == 0 {
        0
    } else if s[0] == c {
        0
    } else {
        1 + first_index(s.subrange(1, s.len() as int), c)
    }
}

/// The pieces of `s` between occurrences of `sep` (`str::split` with a char).
pub open spec fn split_spec(s: Seq<char>, sep: char) -> Seq<Seq<char>>
    decreases s.len(),
{
    let k = first_index(s, sep);
    if k >= s.len() {
        seq![s]
    } else {
        seq![s.take(k as int)] + split_spec(s.skip(k as int + 1), sep)
    }
}

/// The first line of `s`, as `str::lines().next().unwrap_or_default()` gives it:
/// the text before the first `'\n'`, without one `'\r'` right before that `'\n'`.
pub open spec fn first_line_spec(s: Seq<char>) -> Seq<char> {
    let k = first_index(s, '\n');
    if k < s.len() && k > 0 && s[k - 1] == '\r' {
        s.take(k - 1)
    } else {
        s.take(k as int)
    }
}

/// The first line of `s`, cut to at most `n` characters.
pub open spec fn first_line_prefix(s: Seq<char>, n: nat) -> Seq<char> {
    let l = first_line_spec(s);
    if l.len() <= n {
        l
    } else {
        l.take(n as int)
    }
}

pub proof fn lemma_first_index(s: Seq<char>, c: char, k: int)
    requires
        0 <= k <= s.len(),
        forall|j: int| 0 <= j < k ==> s[j] != c,
        k == s.len() || s[k] == c,
    ensures
        first_index(s, c) == k,
    decreases s.len(),
{
    if s.len() > 0 && s[0] != c {
        let t = s.subrange(1, s.len() as int);
        assert forall|j: int| 0 <= j < k - 1 implies t[j] != c by {
            assert(t[j] == s[j + 1]);
        }
        if k < s.len() {
            assert(t[k - 1] == s[k]);
        }
        lemma_first_index(t, c, k - 1);
    }
}

pub proof fn lemma_first_index_bound(s: Seq<char>, c: char)
    ensures
        first_index(s, c) <= s.len(),
        first_index(s, c) < s.len() ==> s[first_index(s, c) as int] == c,
        forall|j: int| 0 <= j < first_index(s, c) ==> s[j] != c,
    decreases s.len(),
{
    if s.len() > 0 && s[0] != c {
        let t = s.subrange(1, s.len() as int);
        lemma_first_index_bound(t, c);
        assert forall|j: int| 0 <= j < first_index(s, c) implies s[j] != c by {
            if j > 0 {
                assert(s[j] == t[j - 1]);
            }
        }
    }
}

pub proof fn lemma_lead_bounds(s: Seq<char>)
    ensures
        lead_ws(s) <= s.len(),
        forall|j: int| 0 <= j < lead_ws(s) ==> is_ws(s[j]),
        lead_ws(s) < s.len() ==> !is_ws(s[lead_ws(s) as int]),
    decreases s.len(),
{
    if s.len() > 0 && is_ws(s[0]) {
        let t = s.subrange(1, s.len() as int);
        lemma_lead_bounds(t);
        assert forall|j: int| 0 <= j < lead_ws(s) implies is_ws(s[j]) by {
            if j > 0 {
                assert(s[j] == t[j - 1]);
            }
        }
        if lead_ws(s) < s.len() {
            assert(s[lead_ws(s) as int] == t[lead_ws(t) as int]);
        }
    }
}

pub proof fn lemma_trail_bounds(s: Seq<char>)
    ensures
        trail_ws(s) <= s.len(),
        forall|j: int| s.len() - trail_ws(s) <= j < s.len() ==> is_ws(s[j]),
        trail_ws(s) < s.len() ==> !is_ws(s[s.len() - trail_ws(s) - 1]),
    decreases s.len(),
{
    if s.len() > 0 && is_ws(s.last()) {
        let t = s.drop_last();
        lemma_trail_bounds(t);
        assert forall|j: int| s.len() - trail_ws(s) <= j < s.len() implies is_ws(s[j]) by {
            if j < s.len() - 1 {
                assert(s[j] == t[j]);
            }
        }
        if trail_ws(s) < s.len() {
            assert(s[s.len() - trail_ws(s) - 1] == t[t.len() - trail_ws(t) - 1]);
        }
    }
}

/// Trimming leaves nothing exactly when the text is all white space.
pub proof fn lemma_trim_bounds(s: Seq<char>)
    ensures
        trim_spec(s).len() == 0 <==> blank(s),
{
    lemma_lead_bounds(s);
    let t = s.skip(lead_ws(s) as int);
    lemma_trail_bounds(t);
    if blank(s) {
        if lead_ws(s) < s.len() {
            assert(is_ws(s[lead_ws(s) as int]));
        }
    } else {
        let j = choose|j: int| 0 <= j < s.len() && !is_ws(s[j]);
        assert(lead_ws(s) <= j);
        assert(t[0] == s[lead_ws(s) as int]);
        if trail_ws(t) == t.len() {
            assert(is_ws(t[0]));
        }
    }
}

/// `char::is_whitespace`.
pub fn is_whitespace(c: char) -> (b: bool)
    ensures
        b == is_ws(c),
{
    let n = c as u32;
    (0x9 <= n && n <= 0xd) || n == 0x20 || n == 0x85 || n == 0xa0 || n == 0x1680 || (0x2000 <= n
        && n <= 0x200a) || n == 0x2028 || n == 0x2029 || n == 0x202f || n == 0x205f || n == 0x3000
}

/// Whether `s` holds nothing but white space.
pub fn is_blank(s: &str) -> (b: bool)
    ensures
        b == blank(s@),
{
    let n = s.unicode_len();
    let mut i: usize = 0;
    while i < n
        invariant
            n == s@.len(),
            i <= n,
            forall|j: int| 0 <= j < i ==> is_ws(s@[j]),
        decreases n - i,
    {
        if !is_whitespace(s.get_char(i)) {
            return false;
        }
        i = i + 1;
    }
    true
}

proof fn lemma_lead_ws(s: Seq<char>, a: int)
    requires
        0 <= a <= s.len(),
        forall|j: int| 0 <= j < a ==> is_ws(s[j]),
        a == s.len() || !is_ws(s[a]),
    ensures
        lead_ws(s) == a,
    decreases s.len(),
{
    if s.len() > 0 && is_ws(s[0]) {
        let t = s.subrange(1, s.len() as int);
        assert forall|j: int| 0 <= j < a - 1 implies is_ws(t[j]) by {
            assert(t[j] == s[j + 1]);
        }
        if a < s.len() {
            assert(t[a - 1] == s[a]);
        }
        lemma_lead_ws(t, a - 1);
    }
}

proof fn lemma_trail_ws(s: Seq<char>, b: int)
    requires
        0 <= b <= s.len(),
        forall|j: int| b <= j < s.len() ==> is_ws(s[j]),
        b == 0 || !is_ws(s[b - 1]),
    ensures
        trail_ws(s) == s.len() - b,
    decreases s.len(),
{
    if s.len() > 0 && is_ws(s.last()) {
        let t = s.drop_last();
        assert forall|j: int| b <= j < t.len() implies is_ws(t[j]) by {
            assert(t[j] == s[j]);
        }
        if b > 0 && b == s.len() {
            assert(false);
        }
        if b > 0 {
            assert(t[b - 1] == s[b - 1]);
        }
        lemma_trail_ws(t, b);
    }
}

/// `s` without leading and trailing white space.
pub fn trim(s: &str) -> (t: String)
    ensures
        t@ == trim_spec(s@),
{
    let n = s.unicode_len();
    let mut a: usize = 0;
    while a < n && is_whitespace(s.get_char(a))
        invariant
            n == s@.len(),
            a <= n,
            forall|j: int| 0 <= j < a ==> is_ws(s@[j]),
        decreases n - a,
    {
        a = a + 1;
    }
    proof {
        lemma_lead_ws(s@, a as int);
    }
    let mut b: usize = n;
    while b > a && is_whitespace(s.get_char(b - 1))
        invariant
            n == s@.len(),
            a <= b <= n,
            forall|j: int| b <= j < n ==> is_ws(s@[j]),
        decreases b - a,
    {
        b = b - 1;
    }
    proof {
        let u = s@.skip(a as int);
        assert forall|j: int| b - a <= j < u.len() implies is_ws(u[j]) by {
            assert(u[j] == s@[j + a]);
        }
        if b > a {
            assert(u[b - a - 1] == s@[b - 1]);
        }
        lemma_trail_ws(u, b - a);
        assert(u.take(u.len() - trail_ws(u)) =~= s@.subrange(a as int, b as int));
    }
    String::from_str(s.substring_char(a, b))
}

/// The index of the first `c` in `s`, or its length when there is none.
pub fn find_char(s: &str, c: char) -> (k: usize)
    ensures
        k == first_index(s@, c),
        k <= s@.len(),
{
    let n = s.unicode_len();
    let mut i: usize = 0;
    while i < n && s.get_char(i) != c
        invariant
            n == s@.len(),
            i <= n,
            forall|j: int| 0 <= j < i ==> s@[j] != c,
        decreases n - i,
    {
        i = i + 1;
    }
    proof {
        lemma_first_index(s@, c, i as int);
    }
    i
}

/// The pieces of `s` between occurrences of `sep`.
pub fn split_on(s: &str, sep: char) -> (parts: Vec<String>)
    ensures
        string_views(parts@) == split_spec(s@, sep),
    decreases s@.len(),
{
    let n = s.unicode_len();
    let k = find_char(s, sep);
    if k >= n {
        let mut parts = Vec::new();
        parts.push(String::from_str(s));
        proof {
            assert(string_views(parts@) =~= seq![s@]);
        }
        parts
    } else {
        let head = String::from_str(s.substring_char(0, k));
        let rest = s.substring_char(k + 1, n);
        proof {
            assert(rest@ =~= s@.skip(k + 1));
            assert(head@ =~= s@.take(k as int));
        }
        let tail = split_on(rest, sep);
        let mut parts = Vec::new();
        parts.push(head);
        let mut i: usize = 0;
        while i < tail.len()
            invariant
                parts@.len() == i + 1,
                parts@[0]@ == s@.take(k as int),
                forall|j: int| 0 <= j < i ==> parts@[j + 1]@ == tail@[j]@,
                i <= tail@.len(),
            decreases tail.len() - i,
        {
            parts.push(tail[i].clone());
            i = i + 1;
        }
        proof {
            assert(string_views(parts@) =~= seq![s@.take(k as int)] + string_views(tail@));
        }
        parts
    }
}

/// The first line of `s` (see `first_line_spec`).
pub fn first_line(s: &str) -> (l: String)
    ensures
        l@ == first_line_spec(s@),
{
    let k = find_char(s, '\n');
    let n = s.unicode_len();
    if k < n && k > 0 && s.get_char(k - 1) == '\r' {
        String::from_str(s.substring_char(0, k - 1))
    } else {
        String::from_str(s.substring_char(0, k))
    }
}

/// The first line of `s`, cut to at most `limit` characters.
pub fn first_line_prefix_of(s: &str, limit: usize) -> (l: String)
    ensures
        l@ == first_line_prefix(s@, limit as nat),
{
    let line = first_line(s);
    let m = line.as_str().unicode_len();
    if m <= limit {
        line
    } else {
        String::from_str(line.as_str().substring_char(0, limit))
    }
}

/// `a` followed by `b`.
pub fn concat(a: &str, b: &str) -> (s: String)
    ensures
        s@ == a@ + b@,
{
    let mut s = String::from_str(a);
    s.append(b);
    s
}

/// Whether two strings hold the same characters.
pub fn str_eq(a: &str, b: &str) -> (r: bool)
    ensures
        r == (a@ == b@),
{
    let n = a.unicode_len();
    if n != b.unicode_len() {
        return false;
    }
    let mut i: usize = 0;
    while i < n
        invariant
            n == a@.len(),
            n == b@.len(),
            i <= n,
            forall|j: int| 0 <= j < i ==> a@[j] == b@[j],
        decreases n - i,
    {
        if a.get_char(i) != b.get_char(i) {
            return false;
        }
        i = i + 1;
    }
    proof {
        assert(a@ =~= b@);
    }
    true
}

/// A copy of a list of strings.
pub fn copy_strings(v: &Vec<String>) -> (r: Vec<String>)
    ensures
        r@ == v@,
{
    let mut r: Vec<String> = Vec::new();
    let mut i: usize = 0;
    while i < v.len()
        invariant
            i <= v@.len(),
            r@ == v@.take(i as int),
        decreases v.len() - i,
    {
        r.push(v[i].clone());
        proof {
            assert(r@ =~= v@.take(i + 1));
        }
        i = i + 1;
    }
    proof {
        assert(v@.take(v@.len() as int) =~= v@);
    }
    r
}

/// Whether every character is an ASCII decimal digit.
pub open spec fn all_digits(s: Seq<char>) -> bool {
    forall|i: int| 0 <= i < s.len() ==> '0' <= #[trigger] s[i] <= '9'
}

/// The value of a string of decimal digits.
pub open spec fn digits_value(s: Seq<char>) -> nat
    decreases s.len(),
{
    if s.len() == 0 {
        0
    } else {
        digits_value(s.drop_last()) * 10 + ((s.last() as u32) - ('0' as u32)) as nat
    }
}

/// `str::parse::<u32>`: an optional `+`, then one or more digits whose value
/// fits.
pub open spec fn parse_u32_spec(s: Seq<char>) -> Option<u32> {
    let body = if s.len() > 0 && s[0] == '+' {
        s.skip(1)
    } else {
        s
    };
    if body.len() > 0 && all_digits(body) && digits_value(body) <= u32::MAX {
        Some(digits_value(body) as u32)
    } else {
        None
    }
}

/// `str::parse::<i32>`: an optional `+` or `-`, then one or more digits whose
/// signed value fits.
pub open spec fn parse_i32_spec(s: Seq<char>) -> Option<i32> {
    let neg = s.len() > 0 && s[0] == '-';
    let body = if s.len() > 0 && (s[0] == '+' || s[0] == '-') {
        s.skip(1)
    } else {
        s
    };
    if body.len() > 0 && all_digits(body) {
        if neg && digits_value(body) <= 0x8000_0000 {
            Some((0 - digits_value(body)) as i32)
        } else if !neg && digits_value(body) <= 0x7fff_ffff {
            Some(digits_value(body) as i32)
        } else {
            None
        }
    } else {
        None
    }
}

proof fn lemma_digits_monotone(s: Seq<char>, k: int)
    requires
        0 <= k <= s.len(),
        all_digits(s),
    ensures
        digits_value(s.take(k)) <= digits_value(s),
    decreases s.len() - k,
{
    if k < s.len() {
        lemma_digits_monotone(s, k + 1);
        assert(s.take(k + 1).drop_last() =~= s.take(k));
        assert('0' <= s[k] <= '9');
    } else {
        assert(s.take(k) =~= s);
    }
}

/// The value of `s[start..]` as digits, when all are digits and the value is
/// at most `bound`.
fn digits_up_to(s: &str, start: usize, bound: u64) -> (r: Option<u64>)
    requires
        start <= s@.len(),
        bound <= u32::MAX as u64 + 1,
    ensures
        ({
            let body = s@.skip(start as int);
            match r {
                Some(v) => all_digits(body) && v == digits_value(body) && v <= bound,
                None => !all_digits(body) || digits_value(body) > bound,
            }
        }),
{
    let n = s.unicode_len();
    let ghost body = s@.skip(start as int);
    let mut acc: u64 = 0;
    let mut i: usize = start;
    while i < n
        invariant
            n == s@.len(),
            start <= i <= n,
            body == s@.skip(start as int),
            bound <= u32::MAX as u64 + 1,
            all_digits(body.take(i - start)),
            acc == digits_value(body.take(i - start)),
            acc <= bound,
        decreases n - i,
    {
        let c = s.get_char(i);
        proof {
            assert(body[i - start] == c);
            assert(body.take(i - start + 1).drop_last() =~= body.take(i - start));
        }
        if c < '0' || c > '9' {
            return None;
        }
        let d = (c as u32 - '0' as u32) as u64;
        acc = acc * 10 + d;
        if acc > bound {
            proof {
                assert(all_digits(body.take(i - start + 1)));
                if all_digits(body) {
                    lemma_digits_monotone(body, i - start + 1);
                }
            }
            return None;
        }
        i = i + 1;
    }
    proof {
        assert(body.take(n - start) =~= body);
    }
    Some(acc)
}

/// `str::parse::<u32>` (see `parse_u32_spec`).
pub fn parse_u32(s: &str) -> (r: Option<u32>)
    ensures
        r == parse_u32_spec(s@),
{
    let n = s.unicode_len();
    let start: usize = if n > 0 && s.get_char(0) == '+' {
        1
    } else {
        0
    };
    proof {
        assert(start == 0 ==> s@.skip(0) =~= s@);
    }
    if start >= n {
        return None;
    }
    match digits_up_to(s, start, u32::MAX as u64) {
        Some(v) => Some(v as u32),
        None => None,
    }
}

/// `str::parse::<i32>` (see `parse_i32_spec`).
pub fn parse_i32(s: &str) -> (r: Option<i32>)
    ensures
        r == parse_i32_spec(s@),
{
    let n = s.unicode_len();
    let neg = n > 0 && s.get_char(0) == '-';
    let start: usize = if n > 0 && (s.get_char(0) == '+' || s.get_char(0) == '-') {
        1
    } else {
        0
    };
    proof {
        assert(start == 0 ==> s@.skip(0) =~= s@);
    }
    if start >= n {
        return None;
    }
    let bound: u64 = if neg {
        0x8000_0000
    } else {
        0x7fff_ffff
    };
    match digits_up_to(s, start, bound) {
        Some(v) => {
            if neg {
                Some((0 - (v as i64)) as i32)
            } else {
                Some(v as i32)
            }
        },
        None => None,
    }
}

} // verus!
