//! Character-level helpers shared by the identifier, path and request modules.

use vstd::prelude::*;

verus! {

/// True for an ASCII digit or ASCII letter: the characters identifiers are made of.
pub open spec fn is_base62(c: char) -> bool {
    (48 <= c as int && c as int <= 57) || (65 <= c as int && c as int <= 90) || (97 <= c as int
        && c as int <= 122)
}

/// True when every character of `s` is a base-62 character.
pub open spec fn all_base62(s: Seq<char>) -> bool {
    forall|i: int| 0 <= i < s.len() ==> #[trigger] is_base62(s[i])
}

/// The `n`-th character of the table `0-9A-Za-z`.
pub open spec fn base62_digit(n: int) -> char {
    if n < 10 {
        (48 + n) as char
    } else if n < 36 {
        (55 + n) as char
    } else {
        (61 + n) as char
    }
}

/// The `n`-th character of the table `0123456789ABCDEFGHIJKLMNOPQRSTUVWXYZabcdefghijklmnopqrstuvwxyz`.
pub fn base62_char(n: usize) -> (c: char)
    requires
        n < 62,
    ensures
        c == base62_digit(n as int),
        is_base62(c),
{
    let small: u8 = n as u8;
    let b: u8 = if small < 10 {
        48 + small
    } else if small < 36 {
        55 + small
    } else {
        61 + small
    };
    b as char
}

/// Appends one character to a `String` with `String::push`.
/// Trusted: the contract claims that the string afterwards holds the old characters followed by `c`.
#[verifier::external_body]
pub(crate) fn push_char(s: &mut String, c: char)
    ensures
        final(s)@ == old(s)@.push(c),
{
    s.push(c);
}

/// `a` followed by `b`, as a new `String`.
pub fn concat2(a: &str, b: &str) -> (r: String)
    ensures
        r@ == a@ + b@,
{
    String::from_str(a).concat(b)
}

/// `a`, `b` and `c` one after the other, as a new `String`.
pub fn concat3(a: &str, b: &str, c: &str) -> (r: String)
    ensures
        r@ == a@ + b@ + c@,
{
    String::from_str(a).concat(b).concat(c)
}

/// True when some name in `names` equals `s`.
pub open spec fn names_contain(names: Seq<String>, s: Seq<char>) -> bool {
    exists|i: int| 0 <= i < names.len() && (#[trigger] names[i])@ == s
}

/// Whether `s` is one of `names`.
pub fn contains_name(names: &Vec<String>, s: &String) -> (r: bool)
    ensures
        r == names_contain(names@, s@),
{
    let n = names.len();
    let mut i: usize = 0;
    while i < n
        invariant
            i <= n,
            n == names@.len(),
            forall|k: int| 0 <= k < i ==> (#[trigger] names@[k])@ != s@,
        decreases n - i,
    {
        if names[i] == *s {
            assert(names@[i as int]@ == s@);
            return true;
        }
        i = i + 1;
    }
    false
}

// ---------------------------------------------------------------------------
// Decimal numbers
// ---------------------------------------------------------------------------
/// True for an ASCII decimal digit.
pub open spec fn is_digit(c: char) -> bool {
    48 <= c as int && c as int <= 57
}

/// True when every character of `s` is an ASCII decimal digit.
pub open spec fn all_digits(s: Seq<char>) -> bool {
    forall|i: int| 0 <= i < s.len() ==> #[trigger] is_digit(s[i])
}

/// The number that the digits `s` denote in base ten.
pub open spec fn decimal_value(s: Seq<char>) -> int
    decreases s.len(),
{
    if s.len() == 0 {
        0
    } else {
        decimal_value(s.drop_last()) * 10 + (s.last() as int - 48)
    }
}

/// The digits of an unsigned number written with an optional leading `+`.
pub open spec fn unsigned_digits(s: Seq<char>) -> Seq<char> {
    if s.len() > 0 && s[0] == '+' {
        s.drop_first()
    } else {
        s
    }
}

/// What `str::parse::<u64>` gives: an optional `+`, then at least one digit,
/// denoting a number that fits in 64 bits.
pub open spec fn parse_u64_spec(s: Seq<char>) -> Option<u64> {
    let d = unsigned_digits(s);
    if d.len() > 0 && all_digits(d) && decimal_value(d) <= u64::MAX {
        Some(decimal_value(d) as u64)
    } else {
        None
    }
}

/// A prefix of a digit string never denotes more than the whole string.
proof fn lemma_decimal_prefix(s: Seq<char>, k: int)
    requires
        all_digits(s),
        0 <= k <= s.len(),
    ensures
        0 <= decimal_value(s.subrange(0, k)) <= decimal_value(s),
    decreases s.len(),
{
    if s.len() == 0 {
        assert(s.subrange(0, k) =~= s);
    } else if k == s.len() {
        assert(s.subrange(0, k) =~= s);
        lemma_decimal_prefix(s.drop_last(), k - 1);
        assert(s.drop_last().subrange(0, k - 1) =~= s.drop_last());
        assert(is_digit(s[s.len() - 1]));
    } else {
        lemma_decimal_prefix(s.drop_last(), k);
        assert(s.drop_last().subrange(0, k) =~= s.subrange(0, k));
        lemma_decimal_prefix(s.drop_last(), s.len() - 1);
        assert(s.drop_last().subrange(0, s.len() - 1) =~= s.drop_last());
        assert(is_digit(s[s.len() - 1]));
    }
}

/// Parses an unsigned 64-bit number the way `str::parse::<u64>` does.
pub fn parse_u64(s: &str) -> (r: Option<u64>)
    ensures
        r == parse_u64_spec(s@),
{
    let n = s.unicode_len();
    let mut i: usize = 0;
    if n > 0 && s.get_char(0) == '+' {
        i = 1;
    }
    let start = i;
    let ghost d = unsigned_digits(s@);
    assert(d =~= s@.subrange(start as int, n as int));
    if start == n {
        return None;
    }
    let mut acc: u64 = 0;
    while i < n
        invariant
            start <= i <= n,
            n == s@.len(),
            start < n,
            d == s@.subrange(start as int, n as int),
            d == unsigned_digits(s@),
            all_digits(s@.subrange(start as int, i as int)),
            acc == decimal_value(s@.subrange(start as int, i as int)),
        decreases n - i,
    {
        let c = s.get_char(i);
        let code = c as u32;
        if code < 48 || code > 57 {
            assert(d[i - start] == c);
            assert(!is_digit(d[i - start]));
            return None;
        }
        let dv: u64 = (code - 48) as u64;
        let ghost next = s@.subrange(start as int, i + 1);
        assert(next.drop_last() =~= s@.subrange(start as int, i as int));
        assert(all_digits(next));
        assert(decimal_value(next) == acc * 10 + dv);
        let m = acc.checked_mul(10);
        if m.is_none() {
            proof {
                lemma_overflow_is_rejected(s@, start as int, i + 1 - start);
            }
            return None;
        }
        let m = m.unwrap();
        let a = m.checked_add(dv);
        if a.is_none() {
            proof {
                lemma_overflow_is_rejected(s@, start as int, i + 1 - start);
            }
            return None;
        }
        acc = a.unwrap();
        i = i + 1;
    }
    assert(s@.subrange(start as int, n as int) =~= d);
    Some(acc)
}

/// When the digits read so far already exceed `u64::MAX`, the whole string is rejected.
proof fn lemma_overflow_is_rejected(s: Seq<char>, start: int, k: int)
    requires
        0 <= start <= s.len(),
        unsigned_digits(s) == s.subrange(start, s.len() as int),
        0 < k <= s.len() - start,
        all_digits(s.subrange(start, start + k)),
        decimal_value(s.subrange(start, start + k)) > u64::MAX,
    ensures
        parse_u64_spec(s) is None,
{
    let d = unsigned_digits(s);
    if all_digits(d) {
        lemma_decimal_prefix(d, k);
        assert(d.subrange(0, k) =~= s.subrange(start, start + k));
    }
}

// ---------------------------------------------------------------------------
// Dots and extensions
// ---------------------------------------------------------------------------
/// True when `i` is the position of the last `.` in `s`.
pub open spec fn is_last_dot(s: Seq<char>, i: int) -> bool {
    0 <= i < s.len() && s[i] == '.' && forall|k: int| i < k < s.len() ==> s[k] != '.'
}

/// True when `s` holds a `.`.
pub open spec fn has_dot(s: Seq<char>) -> bool {
    exists|i: int| 0 <= i < s.len() && s[i] == '.'
}

/// The position of the last `.` in `s` (meaningful when `has_dot(s)`).
pub open spec fn last_dot(s: Seq<char>) -> int {
    choose|i: int| is_last_dot(s, i)
}

/// A string has at most one last dot, and has one exactly when it holds a dot.
pub proof fn lemma_last_dot(s: Seq<char>)
    ensures
        has_dot(s) ==> is_last_dot(s, last_dot(s)),
        forall|i: int| #[trigger] is_last_dot(s, i) ==> i == last_dot(s),
        forall|i: int| #[trigger] is_last_dot(s, i) ==> has_dot(s),
{
    if has_dot(s) {
        let j = choose|j: int| 0 <= j < s.len() && s[j] == '.';
        lemma_some_last_dot(s, j);
    }
    assert forall|i: int| #[trigger] is_last_dot(s, i) implies i == last_dot(s) by {
        let l = last_dot(s);
        assert(is_last_dot(s, l));
        if i < l {
            assert(s[l] != '.');
        } else if l < i {
            assert(s[i] != '.');
        }
    }
}

/// If `s[j]` is a dot, then `s` has a last dot.
proof fn lemma_some_last_dot(s: Seq<char>, j: int)
    requires
        0 <= j < s.len(),
        s[j] == '.',
    ensures
        exists|i: int| is_last_dot(s, i),
    decreases s.len() - j,
{
    if forall|k: int| j < k < s.len() ==> s[k] != '.' {
        assert(is_last_dot(s, j));
    } else {
        let k = choose|k: int| j < k < s.len() && s[k] == '.';
        lemma_some_last_dot(s, k);
    }
}

/// Finds the last `.` in `s`.
pub fn find_last_dot(s: &str) -> (r: Option<usize>)
    ensures
        match r {
            Some(i) => is_last_dot(s@, i as int) && i as int == last_dot(s@) && has_dot(s@),
            None => !has_dot(s@),
        },
{
    let n = s.unicode_len();
    let mut j: usize = n;
    while j > 0
        invariant
            j <= n,
            n == s@.len(),
            forall|k: int| j <= k < n ==> s@[k] != '.',
        decreases j,
    {
        let c = s.get_char(j - 1);
        if c == '.' {
            proof {
                assert(is_last_dot(s@, j - 1));
                lemma_last_dot(s@);
            }
            return Some(j - 1);
        }
        j = j - 1;
    }
    None
}

/// The characters of `s` before its last `.`, or all of `s` when it holds none
/// (what `&s[..i]` gives for `i = s.rfind('.')`).
pub open spec fn before_last_dot(s: Seq<char>) -> Seq<char> {
    if has_dot(s) {
        s.subrange(0, last_dot(s))
    } else {
        s
    }
}

/// True for the name `..`, which has no extension.
pub open spec fn is_parent_name(s: Seq<char>) -> bool {
    s.len() == 2 && s[0] == '.' && s[1] == '.'
}

/// Where a file name splits into stem and extension, as `Path::extension` and
/// `Path::file_stem` split a single file name: at the last `.`, provided it is not the
/// first character and the name is not `..`.
pub open spec fn extension_dot(s: Seq<char>) -> Option<int> {
    if has_dot(s) && last_dot(s) > 0 && !is_parent_name(s) {
        Some(last_dot(s))
    } else {
        None
    }
}

/// Splits a file name into its stem and extension (`None` when it has no extension).
pub fn split_extension(name: &str) -> (r: Option<(String, String)>)
    ensures
        match extension_dot(name@) {
            Some(i) => match r {
                Some((stem, ext)) => stem@ == name@.subrange(0, i) && ext@ == name@.subrange(
                    i + 1,
                    name@.len() as int,
                ),
                None => false,
            },
            None => r is None,
        },
{
    let n = name.unicode_len();
    match find_last_dot(name) {
        None => None,
        Some(i) => {
            if i == 0 {
                return None;
            }
            if n == 2 && i == 1 && name.get_char(0) == '.' {
                return None;
            }
            let stem = String::from_str(name.substring_char(0, i));
            let ext = String::from_str(name.substring_char(i + 1, n));
            Some((stem, ext))
        },
    }
}

/// The characters of `s` before its last `.`, or all of `s` when it holds none.
pub fn strip_last_dot(s: &str) -> (r: String)
    ensures
        r@ == before_last_dot(s@),
{
    match find_last_dot(s) {
        Some(i) => String::from_str(s.substring_char(0, i)),
        None => String::from_str(s),
    }
}

// ---------------------------------------------------------------------------
// File names of paths
// ---------------------------------------------------------------------------
/// Where the last `/`-separated segment of `p` starts: just after its last `/`, or 0.
pub open spec fn seg_start(p: Seq<char>) -> int
    decreases p.len(),
{
    if p.len() == 0 {
        0
    } else if p.last() == '/' {
        p.len() as int
    } else {
        seg_start(p.drop_last())
    }
}

/// The last segment starts within `p`.
pub proof fn lemma_seg_start_bound(p: Seq<char>)
    ensures
        0 <= seg_start(p) <= p.len(),
        p.len() > 0 && p.last() != '/' ==> seg_start(p) < p.len(),
    decreases p.len(),
{
    if p.len() > 0 && p.last() != '/' {
        lemma_seg_start_bound(p.drop_last());
    }
}

/// True when `b` is just after the last `/` of `p` (or 0 when `p` holds none).
pub open spec fn is_seg_start(p: Seq<char>, b: int) -> bool {
    0 <= b <= p.len() && (b == 0 || p[b - 1] == '/') && forall|k: int| b <= k < p.len() ==> p[k] != '/'
}

/// The start of the last segment is the only position just after the last `/`.
pub proof fn lemma_seg_start_is(p: Seq<char>, b: int)
    requires
        is_seg_start(p, b),
    ensures
        seg_start(p) == b,
    decreases p.len(),
{
    if p.len() > b {
        assert(p.last() != '/');
        assert(is_seg_start(p.drop_last(), b));
        lemma_seg_start_is(p.drop_last(), b);
    }
}

/// The name `.`.
pub open spec fn is_current_name(s: Seq<char>) -> bool {
    s.len() == 1 && s[0] == '.'
}

/// The file name of a path, as `Path::file_name` gives it with `/` as separator: its last
/// segment, ignoring empty segments and `.` segments; none when that is `..` or there is none.
pub open spec fn path_file_name(p: Seq<char>) -> Option<Seq<char>>
    decreases p.len(),
{
    if p.len() == 0 {
        None
    } else if p.last() == '/' {
        path_file_name(p.drop_last())
    } else {
        proof {
            lemma_seg_start_bound(p);
        }
        let seg = p.subrange(seg_start(p), p.len() as int);
        if is_current_name(seg) {
            path_file_name(p.subrange(0, seg_start(p)))
        } else if is_parent_name(seg) {
            None
        } else {
            Some(seg)
        }
    }
}

/// The extension of a path, as `Path::extension` gives it with `/` as separator.
pub open spec fn path_extension(p: Seq<char>) -> Option<Seq<char>> {
    match path_file_name(p) {
        Some(name) => match extension_dot(name) {
            Some(i) => Some(name.subrange(i + 1, name.len() as int)),
            None => None,
        },
        None => None,
    }
}

/// The file name of a path.
pub fn file_name_of(path: &str) -> (r: Option<String>)
    ensures
        match path_file_name(path@) {
            Some(name) => r matches Some(s) && s@ == name,
            None => r is None,
        },
{
    let mut e: usize = path.unicode_len();
    let dot = String::from_str(".");
    let dots = String::from_str("..");
    proof {
        reveal_strlit(".");
        reveal_strlit("..");
        assert(path@.subrange(0, e as int) =~= path@);
    }
    loop
        invariant
            e <= path@.len(),
            path_file_name(path@) == path_file_name(path@.subrange(0, e as int)),
            dot@ =~= seq!['.'],
            dots@ =~= seq!['.', '.'],
        decreases e,
    {
        let ghost p = path@.subrange(0, e as int);
        if e == 0 {
            return None;
        }
        if path.get_char(e - 1) == '/' {
            proof {
                assert(p.drop_last() =~= path@.subrange(0, e - 1));
            }
            e = e - 1;
        } else {
            let mut b: usize = e;
            while b > 0 && path.get_char(b - 1) != '/'
                invariant
                    b <= e <= path@.len(),
                    forall|k: int| b <= k < e ==> path@[k] != '/',
                decreases b,
            {
                b = b - 1;
            }
            proof {
                assert(is_seg_start(p, b as int));
                lemma_seg_start_is(p, b as int);
                assert(p.subrange(b as int, e as int) =~= path@.subrange(b as int, e as int));
                assert(p.subrange(0, b as int) =~= path@.subrange(0, b as int));
            }
            let seg = String::from_str(path.substring_char(b, e));
            proof {
                assert(p.last() == path@[e - 1]);
                assert(seg@ == p.subrange(seg_start(p), p.len() as int));
                assert(is_current_name(seg@) <==> seg@ =~= dot@);
                assert(is_parent_name(seg@) <==> seg@ =~= dots@);
            }
            if seg == dot {
                e = b;
            } else if seg == dots {
                return None;
            } else {
                return Some(seg);
            }
        }
    }
}

/// The extension of a path.
pub fn path_extension_of(path: &str) -> (r: Option<String>)
    ensures
        match path_extension(path@) {
            Some(ext) => r matches Some(s) && s@ == ext,
            None => r is None,
        },
{
    match file_name_of(path) {
        Some(name) => match split_extension(name.as_str()) {
            Some((_stem, ext)) => Some(ext),
            None => None,
        },
        None => None,
    }
}

} // verus!
