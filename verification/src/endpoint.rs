//! The endpoint ("pretendo") record and the two input sanitizers.

use vstd::prelude::*;

use crate::text::push_char;

verus! {

/// A decimal digit, as accepted in a status code.
pub open spec fn is_digit_char(c: char) -> bool {
    '0' <= c && c <= '9'
}

/// The subsequence of decimal digits of `s`, in their original order.
pub open spec fn digits_of(s: Seq<char>) -> Seq<char>
    decreases s.len(),
{
    if s.len() == 0 {
        Seq::empty()
    } else if is_digit_char(s.last()) {
        digits_of(s.drop_last()).push(s.last())
    } else {
        digits_of(s.drop_last())
    }
}

/// A sanitized status code: the digits of the input, in order, truncated to
/// the first three.
pub open spec fn spec_sanitized_status(s: Seq<char>) -> Seq<char> {
    if digits_of(s).len() <= 3 {
        digits_of(s)
    } else {
        digits_of(s).take(3)
    }
}

/// A sanitized response body: newlines removed and double quotes replaced by
/// single quotes, as applied to the draft body before it is submitted.
pub open spec fn spec_sanitized_body(s: Seq<char>) -> Seq<char>
    decreases s.len(),
{
    if s.len() == 0 {
        Seq::empty()
    } else {
        let rest = spec_sanitized_body(s.drop_last());
        if s.last() == '\n' {
            rest
        } else if s.last() == '"' {
            rest.push('\'')
        } else {
            rest.push(s.last())
        }
    }
}

/// Every element that `digits_of` keeps is a digit.
pub proof fn lemma_digits_of_all_digits(s: Seq<char>)
    ensures
        forall|i: int|
            0 <= i < digits_of(s).len() ==> is_digit_char(#[trigger] digits_of(s)[i]),
    decreases s.len(),
{
    if s.len() > 0 {
        lemma_digits_of_all_digits(s.drop_last());
        let d = digits_of(s.drop_last());
        if is_digit_char(s.last()) {
            assert(digits_of(s) == d.push(s.last()));
            assert forall|i: int| 0 <= i < digits_of(s).len() implies is_digit_char(
                #[trigger] digits_of(s)[i],
            ) by {
                if i < d.len() {
                    assert(digits_of(s)[i] == d[i]);
                } else {
                    assert(digits_of(s)[i] == s.last());
                }
            }
        }
    }
}

/// Status-code sanitization yields digits only, at most three of them, and
/// keeps the original left-to-right digit order: the result is exactly the
/// leading prefix of the input's digit subsequence.
pub proof fn lemma_sanitized_status_form(s: Seq<char>)
    ensures
        spec_sanitized_status(s).len() <= 3,
        forall|i: int|
            0 <= i < spec_sanitized_status(s).len() ==> is_digit_char(
                #[trigger] spec_sanitized_status(s)[i],
            ),
        spec_sanitized_status(s) == digits_of(s).take(
            if digits_of(s).len() <= 3 {
                digits_of(s).len() as int
            } else {
                3
            },
        ),
{
    lemma_digits_of_all_digits(s);
    assert(digits_of(s).take(digits_of(s).len() as int) =~= digits_of(s));
}

/// A sanitized response body carries no newline and no double quote, so the
/// submitted text can never hold the two characters the sanitizer exists to
/// remove.
pub proof fn lemma_sanitized_body_clean(s: Seq<char>)
    ensures
        forall|i: int|
            0 <= i < spec_sanitized_body(s).len() ==> #[trigger] spec_sanitized_body(s)[i] != '\n'
                && spec_sanitized_body(s)[i] != '"',
    decreases s.len(),
{
    if s.len() > 0 {
        lemma_sanitized_body_clean(s.drop_last());
        let rest = spec_sanitized_body(s.drop_last());
        if s.last() != '\n' {
            let c = if s.last() == '"' {
                '\''
            } else {
                s.last()
            };
            assert forall|i: int| 0 <= i < spec_sanitized_body(s).len() implies #[trigger]
            spec_sanitized_body(s)[i] != '\n' && spec_sanitized_body(s)[i] != '"' by {
                if i < rest.len() {
                    assert(spec_sanitized_body(s)[i] == rest[i]);
                } else {
                    assert(spec_sanitized_body(s)[i] == c);
                }
            }
        }
    }
}

/// Rewrites `s` in place to its sanitized status-code form: digits only,
/// truncated to three, original order kept.
pub fn validate_status_code(s: &mut String)
    ensures
        final(s)@ == spec_sanitized_status(old(s)@),
{
    let n = s.as_str().unicode_len();
    let mut out = String::new();
    let mut count: usize = 0;
    let mut i: usize = 0;
    while i < n
        invariant
            i <= n,
            n == s@.len(),
            s@ == old(s)@,
            count == out@.len(),
            out@ == spec_sanitized_status(s@.take(i as int)),
            out@.len() <= digits_of(s@.take(i as int)).len(),
            out@.len() < 3 ==> out@ == digits_of(s@.take(i as int)),
        decreases n - i,
    {
        let c = s.as_str().get_char(i);
        proof {
            assert(s@.take(i as int + 1).drop_last() =~= s@.take(i as int));
            assert(s@.take(i as int + 1).last() == s@[i as int]);
        }
        let ghost d_now = digits_of(s@.take(i as int));
        if '0' <= c && c <= '9' {
            proof {
                assert(digits_of(s@.take(i as int + 1)) == d_now.push(c));
            }
            if count < 3 {
                push_char(&mut out, c);
                count += 1;
            } else {
                proof {
                    assert(d_now.len() >= 3);
                    assert(d_now.push(c).take(3) =~= d_now.take(3));
                }
            }
        }
        i += 1;
    }
    proof {
        assert(s@.take(n as int) =~= s@);
    }
    *s = out;
}

/// The sanitized form of a draft response body, computed before submission:
/// newlines stripped, double quotes turned into single quotes.
pub fn sanitize_return_object(s: &str) -> (r: String)
    ensures
        r@ == spec_sanitized_body(s@),
{
    let n = s.unicode_len();
    let mut out = String::new();
    let mut i: usize = 0;
    while i < n
        invariant
            i <= n,
            n == s@.len(),
            out@ == spec_sanitized_body(s@.take(i as int)),
        decreases n - i,
    {
        let c = s.get_char(i);
        proof {
            assert(s@.take(i as int + 1).drop_last() =~= s@.take(i as int));
            assert(s@.take(i as int + 1).last() == s@[i as int]);
        }
        if c == '"' {
            push_char(&mut out, '\'');
        } else if c != '\n' {
            push_char(&mut out, c);
        }
        i += 1;
    }
    proof {
        assert(s@.take(n as int) =~= s@);
    }
    out
}

/// The mathematical value of an endpoint record.
pub ghost struct PretendoView {
    pub id: Option<int>,
    pub path: Seq<char>,
    pub return_object: Seq<char>,
    pub status_code: Seq<char>,
    pub name: Seq<char>,
}

/// A mock endpoint: a request path, a canned response body, a display name
/// and a status code, plus the identifier the service assigns once the
/// record is persisted.  `id == None` marks an unsaved draft.
pub struct Pretendo {
    pub id: Option<i32>,
    pub path: String,
    pub return_object: String,
    pub status_code: String,
    pub name: String,
}

impl View for Pretendo {
    type V = PretendoView;

    open spec fn view(&self) -> PretendoView {
        PretendoView {
            id: match self.id {
                Some(n) => Some(n as int),
                None => None,
            },
            path: self.path@,
            return_object: self.return_object@,
            status_code: self.status_code@,
            name: self.name@,
        }
    }
}

impl DeepView for Pretendo {
    type V = PretendoView;

    open spec fn deep_view(&self) -> PretendoView {
        self@
    }
}

/// The view of a fresh, unsaved draft: no identifier, all fields empty.
pub open spec fn blank_pretendo() -> PretendoView {
    PretendoView {
        id: None,
        path: Seq::empty(),
        return_object: Seq::empty(),
        status_code: Seq::empty(),
        name: Seq::empty(),
    }
}

impl Pretendo {
    /// A fresh, unsaved draft.
    pub fn new() -> (r: Self)
        ensures
            r@ == blank_pretendo(),
    {
        let r = Pretendo {
            id: None,
            path: String::new(),
            return_object: String::new(),
            status_code: String::new(),
            name: String::new(),
        };
        r
    }
}

impl Clone for Pretendo {
    /// A clone carries the same record.
    fn clone(&self) -> (r: Self)
        ensures
            r@ == self@,
    {
        Pretendo {
            id: self.id,
            path: self.path.clone(),
            return_object: self.return_object.clone(),
            status_code: self.status_code.clone(),
            name: self.name.clone(),
        }
    }
}

} // verus!
