//! Library behind a quick-launcher front end for GitHub repositories.
//!
//! The library holds the logic of the launcher: the incremental repository
//! cache (merge, dedup, filter, sort), the tokenizer that produces search
//! match text, the result synthesizer that turns repository records into
//! launcher entries, the launcher result-schema emitter, and the pure
//! decision rules (cache freshness, rule selection, argument parsing).
//! All I/O — files, network, processes — lives outside the library.

pub mod actions;
pub mod alfred;
pub mod args;
pub mod config;
pub mod hub_compat;

use vstd::prelude::*;
use vstd::string::*;

verus! {

/// The `owner/name` canonical identifier of a repository.
#[derive(Clone, Debug)]
pub struct FullName {
    pub owner: String,
    pub name: String,
}

/// The index of the first occurrence of `c` in `s`, or -1 when `c` does not occur.
pub open spec fn find_char(s: Seq<char>, c: char) -> int
    decreases s.len(),
{
    if s.len() == 0 {
        -1
    } else if s[0] == c {
        0
    } else {
        let r = find_char(s.drop_first(), c);
        if r < 0 {
            -1
        } else {
            r + 1
        }
    }
}

/// `find_char` returns -1 exactly when `c` is absent, and otherwise the
/// first index holding `c`.
pub proof fn lemma_find_char(s: Seq<char>, c: char)
    ensures
        find_char(s, c) == -1 <==> (forall|i: int| 0 <= i < s.len() ==> s[i] != c),
        find_char(s, c) != -1 ==> {
            let j = find_char(s, c);
            &&& 0 <= j < s.len()
            &&& s[j] == c
            &&& forall|i: int| 0 <= i < j ==> s[i] != c
        },
    decreases s.len(),
{
    if s.len() > 0 && s[0] != c {
        lemma_find_char(s.drop_first(), c);
        let t = s.drop_first();
        let r = find_char(t, c);
        if r == -1 {
            assert forall|i: int| 0 <= i < s.len() implies s[i] != c by {
                if i >= 1 {
                    assert(t[i - 1] != c);
                }
            }
        } else {
            assert(s[r + 1] == t[r]);
            assert forall|i: int| 0 <= i < r + 1 implies s[i] != c by {
                if i >= 1 {
                    assert(t[i - 1] != c);
                }
            }
        }
    }
}

/// What `FullName::from_str` recognises: a string with a `/` splits at the
/// first one into owner and name.
pub open spec fn parse_full_name(s: Seq<char>) -> Option<(Seq<char>, Seq<char>)> {
    let j = find_char(s, '/');
    if j < 0 {
        None
    } else {
        Some((s.take(j), s.skip(j + 1)))
    }
}

impl FullName {
    pub open spec fn view(&self) -> (Seq<char>, Seq<char>) {
        (self.owner@, self.name@)
    }

    /// Splits `owner/name` at the first `/`; a string without `/` is not a
    /// repository full name.
    pub fn from_str(s: &str) -> (r: Result<FullName, String>)
        ensures
            match parse_full_name(s@) {
                Some((ow, nm)) => r is Ok && r->Ok_0.owner@ == ow && r->Ok_0.name@ == nm,
                None => r is Err,
            },
    {
        let n = s.unicode_len();
        let mut i: usize = 0;
        while i < n
            invariant
                0 <= i <= n,
                n == s@.len(),
                forall|k: int| 0 <= k < i ==> s@[k] != '/',
            decreases n - i,
        {
            if s.get_char(i) == '/' {
                proof {
                    lemma_find_char(s@, '/');
                }
                let owner = s.substring_char(0, i);
                let name = s.substring_char(i + 1, n);
                proof {
                    let j = find_char(s@, '/');
                    assert(j == i);
                    assert(owner@ =~= s@.take(j));
                    assert(name@ =~= s@.skip(j + 1));
                }
                return Ok(FullName { owner: owner.to_owned(), name: name.to_owned() });
            }
            i += 1;
        }
        proof {
            lemma_find_char(s@, '/');
        }
        Err(String::from_str("not a github repository full-name"))
    }

    /// The canonical display form `owner/name`.
    pub fn to_display_string(&self) -> (r: String)
        ensures
            r@ == self.owner@ + seq!['/'] + self.name@,
    {
        let mut out = self.owner.clone();
        out.append("/");
        out.append(self.name.as_str());
        proof {
            reveal_strlit("/");
            assert("/"@ =~= seq!['/']);
        }
        out
    }
}

/// The decimal digits of `n`, most significant first.
pub open spec fn dec_digits(n: nat) -> Seq<char>
    decreases n,
{
    if n < 10 {
        seq![digit_char(n)]
    } else {
        dec_digits(n / 10).push(digit_char(n % 10))
    }
}

/// The character of a single decimal digit.
pub open spec fn digit_char(d: nat) -> char {
    if d == 0 {
        '0'
    } else if d == 1 {
        '1'
    } else if d == 2 {
        '2'
    } else if d == 3 {
        '3'
    } else if d == 4 {
        '4'
    } else if d == 5 {
        '5'
    } else if d == 6 {
        '6'
    } else if d == 7 {
        '7'
    } else if d == 8 {
        '8'
    } else {
        '9'
    }
}

fn digit_to_char(d: u64) -> (c: char)
    requires
        d < 10,
    ensures
        c == digit_char(d as nat),
{
    if d == 0 {
        '0'
    } else if d == 1 {
        '1'
    } else if d == 2 {
        '2'
    } else if d == 3 {
        '3'
    } else if d == 4 {
        '4'
    } else if d == 5 {
        '5'
    } else if d == 6 {
        '6'
    } else if d == 7 {
        '7'
    } else if d == 8 {
        '8'
    } else {
        '9'
    }
}

/// The decimal rendering of `n`.
pub fn u64_to_dec_string(n: u64) -> (r: String)
    ensures
        r@ == dec_digits(n as nat),
{
    let mut digits: Vec<char> = Vec::new();
    let mut rest: u64 = n;
    loop
        invariant_except_break
            dec_digits(n as nat) =~= dec_digits(rest as nat) + digits@.reverse(),
        ensures
            dec_digits(n as nat) =~= digits@.reverse(),
        decreases rest,
    {
        let ghost prev = digits@;
        let d = rest % 10;
        digits.push(digit_to_char(d));
        proof {
            assert(digits@.reverse() =~= seq![digit_char(d as nat)] + prev.reverse());
        }
        if rest < 10 {
            proof {
                assert(dec_digits(rest as nat) =~= seq![digit_char(d as nat)]);
                assert(dec_digits(n as nat) =~= digits@.reverse());
            }
            break;
        }
        let old_rest = rest;
        rest = rest / 10;
        proof {
            assert(old_rest == rest * 10 + d);
            assert(dec_digits(old_rest as nat) == dec_digits(rest as nat).push(
                digit_char(d as nat),
            ));
            assert(dec_digits(rest as nat).push(digit_char(d as nat)) + prev.reverse()
                =~= dec_digits(rest as nat) + (seq![digit_char(d as nat)] + prev.reverse()));
        }
    }
    let mut out = String::new();
    let mut i: usize = digits.len();
    while i > 0
        invariant
            0 <= i <= digits.len(),
            out@ =~= digits@.subrange(i as int, digits@.len() as int).reverse(),
        decreases i,
    {
        i -= 1;
        push_char(&mut out, digits[i]);
        proof {
            assert(digits@.subrange(i as int, digits@.len() as int).reverse()
                =~= digits@.subrange(i + 1, digits@.len() as int).reverse().push(digits@[i as int]));
        }
    }
    proof {
        assert(digits@.subrange(0, digits@.len() as int) =~= digits@);
        assert(out@ =~= dec_digits(n as nat));
    }
    out
}

/// Relies on std's `String::push`: appends one character at the end.
/// vstd gives `String::push` no specification, so it is stated here.
#[verifier::external_body]
pub fn push_char(s: &mut String, c: char)
    ensures
        final(s)@ == old(s)@.push(c),
{
    s.push(c);
}

/// Whether two strings hold the same characters.
pub fn str_eq(a: &str, b: &str) -> (r: bool)
    ensures
        r == (a@ == b@),
{
    let an = a.unicode_len();
    let bn = b.unicode_len();
    if an != bn {
        return false;
    }
    let mut i: usize = 0;
    while i < an
        invariant
            0 <= i <= an,
            an == a@.len(),
            an == b@.len(),
            forall|k: int| 0 <= k < i ==> a@[k] == b@[k],
        decreases an - i,
    {
        if a.get_char(i) != b.get_char(i) {
            return false;
        }
        i += 1;
    }
    proof {
        assert(a@ =~= b@);
    }
    true
}

} // verus!
