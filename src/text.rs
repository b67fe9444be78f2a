//! Small verified text helpers: decimal rendering, text equality and the
//! splitting of `user:password` fields.
use vstd::prelude::*;

verus! {

/// The character of a decimal digit.
pub open spec fn digit_char(d: nat) -> char {
    if d == 0 {
        '0'
    } else if d == 1 {
        '1'
    } else if d == 2 {
        '2'
    } else if d == 3 {
        '3'
    } else if d == 4 {
        '4'
    } else if d == 5 {
        '5'
    } else if d == 6 {
        '6'
    } else if d == 7 {
        '7'
    } else if d == 8 {
        '8'
    } else {
        '9'
    }
}

/// The decimal notation of `n`, without leading zeros.
pub open spec fn decimal(n: nat) -> Seq<char>
    decreases n,
{
    if n < 10 {
        seq![digit_char(n)]
    } else {
        decimal(n / 10).push(digit_char(n % 10))
    }
}

/// Renders `n` in decimal.
pub fn decimal_string(n: u64) -> (r: String)
    ensures
        r@ == decimal(n as nat),
    decreases n,
{
    let digits = "0123456789";
    proof {
        reveal_strlit("0123456789");
    }
    let d = (n % 10) as usize;
    let last = digits.substring_char(d, d + 1);
    assert(last@ =~= seq![digit_char(d as nat)]);
    if n < 10 {
        String::from_str(last)
    } else {
        let mut head = decimal_string(n / 10);
        head.append(last);
        head
    }
}

/// `i` ends the field of `t` that starts at `from`: the first ':' from there on,
/// or the end of `t`.
pub open spec fn is_field_end(t: Seq<char>, from: int, i: int) -> bool {
    &&& from <= i <= t.len()
    &&& (i == t.len() || t[i] == ':')
    &&& forall|j: int| from <= j < i ==> t[j] != ':'
}

/// The end of the ':'-separated field of `s` that starts at `from`.
pub fn field_end(s: &str, from: usize) -> (r: usize)
    requires
        from <= s@.len(),
    ensures
        is_field_end(s@, from as int, r as int),
{
    let n = s.unicode_len();
    let mut i = from;
    while i < n
        invariant
            n == s@.len(),
            from <= i <= n,
            forall|j: int| from <= j < i ==> s@[j] != ':',
        decreases n - i,
    {
        if s.get_char(i) == ':' {
            return i;
        }
        i += 1;
    }
    i
}

/// The first two ':'-separated fields of `s` (`user:password` of a proxy
/// address); `None` when `s` holds no ':'.
pub fn split_proxy_auth(s: &str) -> (r: Option<(String, String)>)
    ensures
        r is None <==> (forall|j: int| 0 <= j < s@.len() ==> s@[j] != ':'),
        r matches Some(parts) ==> exists|i: int|
            {
                &&& #[trigger] is_field_end(s@, 0, i)
                &&& is_field_end(s@, i + 1, i + 1 + parts.1@.len())
                &&& parts.0@ == s@.subrange(0, i)
                &&& parts.1@ == s@.subrange(i + 1, i + 1 + parts.1@.len())
            },
{
    let n = s.unicode_len();
    let i = field_end(s, 0);
    if i == n {
        return None;
    }
    let k = field_end(s, i + 1);
    let user = String::from_str(s.substring_char(0, i));
    let password = String::from_str(s.substring_char(i + 1, k));
    proof {
        assert(is_field_end(s@, 0, i as int));
        assert(is_field_end(s@, i + 1, k as int));
    }
    Some((user, password))
}

/// Whether two texts hold the same characters.
pub fn same_text(a: &str, b: &str) -> (r: bool)
    ensures
        r == (a@ == b@),
{
    let x = String::from_str(a);
    let y = String::from_str(b);
    x == y
}

} // verus!
