use vstd::prelude::*;
use vstd::string::*;

verus! {

/// The decimal digit character for `d` (0 through 9).
pub open spec fn digit_char(d: nat) -> char {
    if d == 0 {
        '0'
    } else if d == 1 {
        '1'
    } else if d == 2 {
        '2'
    } else if d == 3 {
        '3'
    } else if d == 4 {
        '4'
    } else if d == 5 {
        '5'
    } else if d == 6 {
        '6'
    } else if d == 7 {
        '7'
    } else if d == 8 {
        '8'
    } else {
        '9'
    }
}

/// The decimal rendering of `n`, most significant digit first, no leading zeros
/// (a single `'0'` for zero).
pub open spec fn dec_of(n: nat) -> Seq<char>
    decreases n,
{
    if n < 10 {
        seq![digit_char(n)]
    } else {
        dec_of(n / 10).push(digit_char(n % 10))
    }
}

fn digit_str(d: u64) -> (r: &'static str)
    requires
        d < 10,
    ensures
        r@ == seq![digit_char(d as nat)],
{
    proof {
        reveal_strlit("0");
        reveal_strlit("1");
        reveal_strlit("2");
        reveal_strlit("3");
        reveal_strlit("4");
        reveal_strlit("5");
        reveal_strlit("6");
        reveal_strlit("7");
        reveal_strlit("8");
        reveal_strlit("9");
    }
    let r: &'static str = if d == 0 {
        "0"
    } else if d == 1 {
        "1"
    } else if d == 2 {
        "2"
    } else if d == 3 {
        "3"
    } else if d == 4 {
        "4"
    } else if d == 5 {
        "5"
    } else if d == 6 {
        "6"
    } else if d == 7 {
        "7"
    } else if d == 8 {
        "8"
    } else {
        "9"
    };
    proof {
        assert(r@ =~= seq![digit_char(d as nat)]);
    }
    r
}

/// Renders `n` in decimal.
pub fn u64_to_string(n: u64) -> (r: String)
    ensures
        r@ == dec_of(n as nat),
    decreases n,
{
    if n < 10 {
        digit_str(n).to_owned()
    } else {
        let mut s = u64_to_string(n / 10);
        s.append(digit_str(n % 10));
        proof {
            assert(s@ =~= dec_of(n as nat));
        }
        s
    }
}

/// The characters of `s`, in order.
pub fn chars_of(s: &str) -> (r: Vec<char>)
    ensures
        r@ == s@,
{
    let n = s.unicode_len();
    let mut r: Vec<char> = Vec::new();
    let mut i: usize = 0;
    while i < n
        invariant
            n == s@.len(),
            i <= n,
            r@ == s@.take(i as int),
        decreases n - i,
    {
        r.push(s.get_char(i));
        i = i + 1;
        proof {
            assert(r@ =~= s@.take(i as int));
        }
    }
    proof {
        assert(r@ =~= s@);
    }
    r
}

/// Compares two texts character by character.
pub fn str_eq(a: &str, b: &str) -> (r: bool)
    ensures
        r == (a@ == b@),
{
    let va = chars_of(a);
    let vb = chars_of(b);
    if va.len() != vb.len() {
        return false;
    }
    let mut i: usize = 0;
    while i < va.len()
        invariant
            va@ == a@,
            vb@ == b@,
            va@.len() == vb@.len(),
            i <= va@.len(),
            forall|j: int| 0 <= j < i ==> va@[j] == vb@[j],
        decreases va@.len() - i,
    {
        if va[i] != vb[i] {
            return false;
        }
        i = i + 1;
    }
    proof {
        assert(a@ =~= b@);
    }
    true
}

/// An ASCII letter or digit: the characters allowed in the local part of a
/// username.
pub open spec fn is_alnum_char(c: char) -> bool {
    ||| ('a' as u32) <= (c as u32) && (c as u32) <= ('z' as u32)
    ||| ('A' as u32) <= (c as u32) && (c as u32) <= ('Z' as u32)
    ||| ('0' as u32) <= (c as u32) && (c as u32) <= ('9' as u32)
}

fn is_alnum(c: char) -> (r: bool)
    ensures
        r == is_alnum_char(c),
{
    let x = c as u32;
    (97 <= x && x <= 122) || (65 <= x && x <= 90) || (48 <= x && x <= 57)
}

/// `u` splits at position `k` as `'@' local ':' domain`: the leading `'@'`,
/// a non-empty alphanumeric local part, a colon at `k`, and exactly `domain`
/// after it.
pub open spec fn username_split_at(u: Seq<char>, domain: Seq<char>, k: int) -> bool {
    &&& 2 <= k < u.len()
    &&& u[0] == '@'
    &&& u[k] == ':'
    &&& (forall|j: int| 1 <= j < k ==> is_alnum_char(#[trigger] u[j]))
    &&& u.subrange(k + 1, u.len() as int) == domain
}

/// The username format gate: `u` matches `@[A-Za-z0-9]+:domain`.
pub open spec fn valid_username(u: Seq<char>, domain: Seq<char>) -> bool {
    exists|k: int| #[trigger] username_split_at(u, domain, k)
}

/// Decides the username format gate for this service's configured domain.
pub fn is_username_valid(username: &str, domain: &str) -> (r: bool)
    ensures
        r == valid_username(username@, domain@),
{
    let u = chars_of(username);
    let d = chars_of(domain);
    let n = u.len();
    if n < 3 {
        proof {
            assert(forall|k: int| !username_split_at(username@, domain@, k));
        }
        return false;
    }
    if u[0] != '@' {
        proof {
            assert(forall|k: int| !username_split_at(username@, domain@, k));
        }
        return false;
    }
    // Scan for the colon that ends the local part; everything before it must
    // be alphanumeric.
    let mut k: usize = 1;
    while k < n && is_alnum(u[k])
        invariant
            u@ == username@,
            n == u.len(),
            1 <= k <= n,
            forall|j: int| 1 <= j < k ==> is_alnum_char(#[trigger] u@[j]),
        decreases n - k,
    {
        k = k + 1;
    }
    if k >= n || u[k] != ':' || k < 2 {
        proof {
            // Any split position k' would place a colon inside the scanned
            // alphanumeric prefix or at the failed position.
            assert forall|kk: int| !username_split_at(username@, domain@, kk) by {
                if 2 <= kk < n {
                    if kk < k {
                        assert(is_alnum_char(u@[kk]));
                    }
                }
            }
        }
        return false;
    }
    // Compare what follows the colon to the domain.
    if n - k - 1 != d.len() {
        proof {
            assert forall|kk: int| !username_split_at(username@, domain@, kk) by {
                if 2 <= kk < n && username_split_at(username@, domain@, kk) {
                    if kk < k as int {
                        assert(is_alnum_char(u@[kk]));
                    } else if kk > k as int {
                        assert(is_alnum_char(u@[k as int]));
                    } else {
                        assert(username@.subrange(kk + 1, n as int).len() == d@.len());
                    }
                }
            }
        }
        return false;
    }
    let mut j: usize = 0;
    while j < d.len()
        invariant
            u@ == username@,
            d@ == domain@,
            n == u.len(),
            2 <= k < n,
            n - k - 1 == d.len(),
            j <= d.len(),
            forall|i: int| 0 <= i < j ==> u@[k + 1 + i] == #[trigger] d@[i],
        decreases d.len() - j,
    {
        if u[k + 1 + j] != d[j] {
            proof {
                assert forall|kk: int| !username_split_at(username@, domain@, kk) by {
                    if 2 <= kk < n && username_split_at(username@, domain@, kk) {
                        if kk < k as int {
                            assert(is_alnum_char(u@[kk]));
                        } else if kk > k as int {
                            assert(is_alnum_char(u@[k as int]));
                        } else {
                            assert(username@.subrange(kk + 1, n as int)[j as int] == d@[j as int]);
                        }
                    }
                }
            }
            return false;
        }
        j = j + 1;
    }
    proof {
        assert(username@.subrange(k as int + 1, n as int) =~= domain@);
        assert(username_split_at(username@, domain@, k as int));
    }
    true
}

fn find_colon(s: &Vec<char>) -> (r: Option<usize>)
    ensures
        match r {
            Some(k) => k < s@.len() && s@[k as int] == ':' && (forall|j: int|
                0 <= j < k ==> s@[j] != ':'),
            None => forall|j: int| 0 <= j < s@.len() ==> s@[j] != ':',
        },
{
    let mut k: usize = 0;
    while k < s.len()
        invariant
            k <= s@.len(),
            forall|j: int| 0 <= j < k ==> s@[j] != ':',
        decreases s@.len() - k,
    {
        if s[k] == ':' {
            return Some(k);
        }
        k = k + 1;
    }
    None
}

/// The part of a fully qualified userid after its first colon: the domain of
/// the user's home identity service, used to route capability validation.
pub fn domain_of_userid<'a>(userid: &'a str) -> (r: Option<&'a str>)
    ensures
        match r {
            Some(d) => exists|k: int|
                0 <= k < userid@.len() && userid@[k] == ':' && (forall|j: int|
                    0 <= j < k ==> userid@[j] != ':') && d@ == userid@.subrange(
                    k + 1,
                    userid@.len() as int,
                ),
            None => forall|j: int| 0 <= j < userid@.len() ==> userid@[j] != ':',
        },
{
    let u = chars_of(userid);
    match find_colon(&u) {
        Some(k) => {
            let n = userid.unicode_len();
            Some(userid.substring_char(k + 1, n))
        },
        None => None,
    }
}

/// The numeric value of a sequence of decimal digit characters.
pub open spec fn dec_val(s: Seq<char>) -> nat
    decreases s.len(),
{
    if s.len() == 0 {
        0
    } else {
        dec_val(s.drop_last()) * 10 + (s.last() as u32 - '0' as u32) as nat
    }
}

/// All characters of `s` are decimal digits.
pub open spec fn all_digits(s: Seq<char>) -> bool {
    forall|j: int| 0 <= j < s.len() ==> ('0' as u32) <= (#[trigger] s[j] as u32) <= ('9' as u32)
}

/// Parses a non-empty all-digit string as a port number; rejects anything
/// else, and any value over 65535.
pub fn parse_u16(s: &str) -> (r: Option<u16>)
    ensures
        match r {
            Some(v) => s@.len() > 0 && all_digits(s@) && dec_val(s@) == v as nat,
            None => s@.len() == 0 || !all_digits(s@) || dec_val(s@) > 65535,
        },
{
    let v = chars_of(s);
    if v.len() == 0 {
        return None;
    }
    let mut acc: u32 = 0;
    let mut i: usize = 0;
    while i < v.len()
        invariant
            v@ == s@,
            i <= v@.len(),
            acc <= 65535,
            forall|j: int|
                0 <= j < i ==> ('0' as u32) <= (#[trigger] v@[j] as u32) <= ('9' as u32),
            acc as nat == dec_val(s@.take(i as int)),
        decreases v@.len() - i,
    {
        let c = v[i];
        let x = c as u32;
        if !(48 <= x && x <= 57) {
            return None;
        }
        proof {
            assert(s@.take(i as int + 1).drop_last() =~= s@.take(i as int));
        }
        acc = acc * 10 + (x - 48);
        i = i + 1;
        if acc > 65535 {
            proof {
                lemma_dec_val_prefix_le(s@, i as int);
            }
            return None;
        }
    }
    proof {
        assert(s@.take(v@.len() as int) =~= s@);
    }
    Some(acc as u16)
}

/// A digit appended to a prefix never decreases the value: the value of a
/// prefix bounds the value of the whole from below once scaled.
proof fn lemma_dec_val_prefix_le(s: Seq<char>, i: int)
    requires
        0 <= i <= s.len(),
    ensures
        dec_val(s.take(i)) <= dec_val(s),
    decreases s.len() - i,
{
    if i < s.len() {
        lemma_dec_val_prefix_le(s, i + 1);
        assert(s.take(i + 1).drop_last() =~= s.take(i));
        assert(dec_val(s.take(i)) <= dec_val(s.take(i + 1)));
    } else {
        assert(s.take(i) =~= s);
    }
}

/// Splits `"domain:port"` at the first colon into the domain and the parsed
/// port, the shape of a joined-server entry.
pub fn parse_server_address(addr: &str) -> (r: Option<(String, u16)>)
    ensures
        match r {
            Some(p) => exists|k: int|
                0 <= k < addr@.len() && addr@[k] == ':' && (forall|j: int|
                    0 <= j < k ==> addr@[j] != ':') && p.0@ == addr@.take(k) && all_digits(
                    addr@.subrange(k + 1, addr@.len() as int),
                ) && dec_val(addr@.subrange(k + 1, addr@.len() as int)) == p.1 as nat,
            None => true,
        },
{
    let u = chars_of(addr);
    match find_colon(&u) {
        Some(k) => {
            let n = addr.unicode_len();
            let domain = addr.substring_char(0, k);
            let port_part = addr.substring_char(k + 1, n);
            match parse_u16(port_part) {
                Some(port) => {
                    proof {
                        assert(domain@ =~= addr@.take(k as int));
                    }
                    Some((domain.to_owned(), port))
                },
                None => None,
            }
        },
        None => None,
    }
}

} // verus!
