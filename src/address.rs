//! Email addresses with an optional display name: parsing from the
//! `Name <local@domain.tld>` form or a bare address, validation, and
//! formatting back to text.
use vstd::prelude::*;

use crate::text::{first_index_of, has_char};

verus! {

/// Why a text could not be read as an email address.
#[derive(Debug, Clone, Copy, PartialEq, Eq, Structural)]
pub enum ParseError {
    /// The part before ` <` is empty or holds `<` or `>`.
    InvalidDisplayName,
    /// The address is not of the shape `local@domain.tld`.
    InvalidAddress,
}

impl ParseError {
    /// The error's message.
    pub fn message(&self) -> (r: &'static str)
        ensures
            *self == ParseError::InvalidDisplayName ==> r@ == "Invalid display name"@,
            *self == ParseError::InvalidAddress ==> r@ == "Invalid email address"@,
    {
        match self {
            ParseError::InvalidDisplayName => "Invalid display name",
            ParseError::InvalidAddress => "Invalid email address",
        }
    }
}

/// A character that may stand in any part of an address.
pub open spec fn is_address_char(c: char) -> bool {
    c != '<' && c != '>' && c != ' '
}

/// A display name: at least one character, and no angle bracket.
pub open spec fn valid_display_name(name: Seq<char>) -> bool {
    &&& name.len() > 0
    &&& !has_char(name, '<')
    &&& !has_char(name, '>')
}

/// An address of the shape `local@left.right`: every part non-empty, no angle
/// bracket or space anywhere (the parts may themselves hold `@` and `.`).
pub open spec fn valid_address(a: Seq<char>) -> bool {
    &&& forall|i: int| 0 <= i < a.len() ==> is_address_char(#[trigger] a[i])
    &&& exists|i: int, j: int|
        0 < i && i + 1 < j && j + 1 < a.len() && #[trigger] a[i] == '@' && #[trigger] a[j] == '.'
}

/// Whether `name` is a valid display name.
pub fn is_valid_display_name(name: &str) -> (r: bool)
    ensures
        r == valid_display_name(name@),
{
    if name.unicode_len() == 0 {
        return false;
    }
    first_index_of(name, '<', 0).is_none() && first_index_of(name, '>', 0).is_none()
}

/// Whether `address` is a valid address.
pub fn is_valid_address(address: &str) -> (r: bool)
    ensures
        r == valid_address(address@),
{
    let n = address.unicode_len();
    let mut i: usize = 0;
    while i < n
        invariant
            n == address@.len(),
            forall|t: int| 0 <= t < i ==> is_address_char(#[trigger] address@[t]),
        decreases n - i,
    {
        let c = address.get_char(i);
        if c == '<' || c == '>' || c == ' ' {
            return false;
        }
        i = i + 1;
    }
    if n < 5 {
        return false;
    }
    let at = match first_index_of(address, '@', 1) {
        Some(at) => at,
        None => return false,
    };
    let mut d: usize = n - 2;
    while d > at + 1
        invariant
            n == address@.len(),
            0 < at < n,
            address@[at as int] == '@',
            forall|t: int| 1 <= t < at ==> address@[t] != '@',
            forall|t: int| 0 <= t < n ==> is_address_char(#[trigger] address@[t]),
            d <= n - 2,
            forall|t: int| d < t < n - 1 ==> #[trigger] address@[t] != '.',
        decreases d,
    {
        if address.get_char(d) == '.' {
            assert(0 < at && at + 1 < d && d + 1 < address@.len() && address@[at as int] == '@'
                && address@[d as int] == '.');
            return true;
        }
        d = d - 1;
    }
    assert forall|i: int, j: int|
        0 < i && i + 1 < j && j + 1 < address@.len() implies !(#[trigger] address@[i] == '@'
        && #[trigger] address@[j] == '.') by {
        if address@[i] == '@' && address@[j] == '.' {
            assert(at <= i);
        }
    }
    false
}

/// What an `EmailAddress` holds: its display name, if any, and its address.
pub struct EmailAddressView {
    pub name: Option<Seq<char>>,
    pub address: Seq<char>,
}

/// An email address, with or without a display name.
#[derive(Debug, Clone, PartialEq)]
pub struct EmailAddress {
    name: Option<String>,
    address: String,
}

impl View for EmailAddress {
    type V = EmailAddressView;

    closed spec fn view(&self) -> EmailAddressView {
        EmailAddressView {
            name: match self.name {
                Some(n) => Some(n@),
                None => None,
            },
            address: self.address@,
        }
    }
}

/// `k` splits `s` as `name <address>`: `s` is the `k` characters of a name,
/// then ` <`, then at least one character other than `>`,
/// then a closing `>`.
pub open spec fn is_split(s: Seq<char>, k: int) -> bool {
    &&& 0 <= k
    &&& k + 4 <= s.len()
    &&& s[s.len() - 1] == '>'
    &&& s[k] == ' '
    &&& s[k + 1] == '<'
    &&& forall|t: int| k + 2 <= t < s.len() - 1 ==> s[t] != '>'
}

/// `k` is the split of `s` with the longest name.
pub open spec fn is_longest_split(s: Seq<char>, k: int) -> bool {
    is_split(s, k) && forall|j: int| k < j ==> !is_split(s, j)
}

/// Where the name of `s` ends when `s` reads as `name <address>`, the name
/// taken as long as it can be; `None` when `s` does not have that shape.
pub open spec fn name_split(s: Seq<char>) -> Option<int> {
    if exists|k: int| is_longest_split(s, k) {
        Some(choose|k: int| is_longest_split(s, k))
    } else {
        None
    }
}

/// What `s` reads as before validation: name and address where `s` has the
/// shape `name <address>`, else all of `s` as the address.
pub open spec fn candidate(s: Seq<char>) -> EmailAddressView {
    match name_split(s) {
        Some(k) => EmailAddressView {
            name: Some(s.subrange(0, k)),
            address: s.subrange(k + 2, s.len() - 1),
        },
        None => EmailAddressView { name: None, address: s },
    }
}

/// The display name of `v` is absent or valid.
pub open spec fn name_accepted(v: EmailAddressView) -> bool {
    match v.name {
        Some(n) => valid_display_name(n),
        None => true,
    }
}

/// The result of parsing `s`: the name is checked first, then the address.
pub open spec fn parse(s: Seq<char>) -> Result<EmailAddressView, ParseError> {
    let v = candidate(s);
    if !name_accepted(v) {
        Err(ParseError::InvalidDisplayName)
    } else if !valid_address(v.address) {
        Err(ParseError::InvalidAddress)
    } else {
        Ok(v)
    }
}

/// The text form of `v`: `name <address>`, or the address alone.
pub open spec fn display_text(v: EmailAddressView) -> Seq<char> {
    match v.name {
        Some(n) => n + seq![' ', '<'] + v.address + seq!['>'],
        None => v.address,
    }
}

/// The view of a parse result.
pub open spec fn result_view(r: Result<EmailAddress, ParseError>) -> Result<
    EmailAddressView,
    ParseError,
> {
    match r {
        Ok(a) => Ok(a@),
        Err(e) => Err(e),
    }
}

proof fn lemma_longest_split_unique(s: Seq<char>, k: int)
    requires
        is_longest_split(s, k),
    ensures
        name_split(s) == Some(k),
{
    let c = choose|k: int| is_longest_split(s, k);
    assert(is_longest_split(s, c));
    if c < k {
        assert(!is_split(s, k));
    } else if k < c {
        assert(!is_split(s, c));
    }
}

/// The longest split of `s`, if it has one.
fn find_split(s: &str) -> (r: Option<usize>)
    ensures
        match r {
            Some(k) => name_split(s@) == Some(k as int) && k + 4 <= s@.len(),
            None => name_split(s@) is None,
        },
{
    let n = s.unicode_len();
    if n < 4 || s.get_char(n - 1) != '>' {
        assert(forall|k: int| !is_longest_split(s@, k));
        return None;
    }
    let mut i: usize = n - 3;
    while i > 0
        invariant
            n == s@.len(),
            4 <= n,
            s@[n - 1] == '>',
            i <= n - 3,
            forall|j: int| i - 1 < j ==> !is_split(s@, j),
            forall|t: int| i + 2 <= t < n - 1 ==> s@[t] != '>',
        decreases i,
    {
        let k = i - 1;
        if s.get_char(k + 2) == '>' {
            assert forall|j: int| !is_longest_split(s@, j) by {
                if j <= k {
                    assert(!is_split(s@, j));
                }
            }
            return None;
        }
        if s.get_char(k) == ' ' && s.get_char(k + 1) == '<' {
            assert(is_longest_split(s@, k as int));
            proof {
                lemma_longest_split_unique(s@, k as int);
            }
            return Some(k);
        }
        i = k;
    }
    assert(forall|k: int| !is_longest_split(s@, k));
    None
}

impl EmailAddress {
    /// An address with no display name; the text is taken as it is.
    pub fn address(address: &str) -> (r: Self)
        ensures
            r@ == (EmailAddressView { name: None, address: address@ }),
    {
        EmailAddress { name: None, address: String::from_str(address) }
    }

    /// An address with a display name; both texts are taken as they are.
    pub fn name_address(name: &str, address: &str) -> (r: Self)
        ensures
            r@ == (EmailAddressView { name: Some(name@), address: address@ }),
    {
        EmailAddress { name: Some(String::from_str(name)), address: String::from_str(address) }
    }

    /// The address, without the display name.
    pub fn email(&self) -> (r: &str)
        ensures
            r@ == self@.address,
    {
        self.address.as_str()
    }

    /// Reads `input` as `name <address>` or as a bare address, and validates
    /// the display name, then the address.
    pub fn try_from(input: &str) -> (r: Result<EmailAddress, ParseError>)
        ensures
            result_view(r) == parse(input@),
    {
        let n = input.unicode_len();
        let result = match find_split(input) {
            Some(k) => EmailAddress::name_address(
                input.substring_char(0, k),
                input.substring_char(k + 2, n - 1),
            ),
            None => EmailAddress::address(input),
        };
        assert(result@ == candidate(input@));
        if let Some(name) = &result.name {
            if !is_valid_display_name(name.as_str()) {
                return Err(ParseError::InvalidDisplayName);
            }
        }
        if !is_valid_address(result.address.as_str()) {
            Err(ParseError::InvalidAddress)
        } else {
            Ok(result)
        }
    }

    /// The text form: `name <address>`, or the address alone.
    pub fn to_string(&self) -> (r: String)
        ensures
            r@ == display_text(self@),
    {
        match &self.name {
            Some(name) => {
                let mut text = name.clone();
                text.append(" <");
                text.append(self.address.as_str());
                text.append(">");
                proof {
                    reveal_strlit(" <");
                    reveal_strlit(">");
                }
                text
            },
            None => self.address.clone(),
        }
    }
}

/// A text whose address part has no `.` after an `@` is refused; unless its
/// display name is at fault, the error is `InvalidAddress`.
pub proof fn lemma_no_dot_in_domain(s: Seq<char>)
    requires
        forall|i: int, j: int|
            0 <= i < j < candidate(s).address.len() && candidate(s).address[i] == '@'
                ==> candidate(s).address[j] != '.',
    ensures
        parse(s) is Err,
        name_accepted(candidate(s)) ==> parse(s) == Err::<EmailAddressView, ParseError>(
            ParseError::InvalidAddress,
        ),
{
    assert(!valid_address(candidate(s).address));
}

/// Where `s` has a name split, it is a longest one.
proof fn lemma_name_split_is_split(s: Seq<char>)
    requires
        name_split(s) is Some,
    ensures
        is_longest_split(s, name_split(s)->0),
{
}

/// `name <address>`, for a valid name and a valid address, splits after the name.
proof fn lemma_split_of_named(name: Seq<char>, address: Seq<char>)
    requires
        valid_display_name(name),
        valid_address(address),
    ensures
        candidate(display_text(EmailAddressView { name: Some(name), address }))
            == (EmailAddressView { name: Some(name), address }),
{
    let s = display_text(EmailAddressView { name: Some(name), address });
    let k = name.len() as int;
    assert(s[k] == ' ');
    assert(s[k + 1] == '<');
    assert forall|t: int| k + 2 <= t < s.len() - 1 implies s[t] != '>' by {
        assert(s[t] == address[t - k - 2]);
        assert(is_address_char(address[t - k - 2]));
    }
    assert forall|j: int| k < j implies !is_split(s, j) by {
        if is_split(s, j) && j + 1 < s.len() - 1 {
            if j == k + 1 {
                assert(s[j] == '<');
            } else {
                assert(s[j + 1] == address[j + 1 - k - 2]);
                assert(is_address_char(address[j + 1 - k - 2]));
            }
        }
    }
    assert(is_longest_split(s, k));
    lemma_longest_split_unique(s, k);
    assert(s.subrange(0, k) =~= name);
    assert(s.subrange(k + 2, s.len() - 1) =~= address);
}

/// A valid address alone parses to itself, with no display name, and prints
/// back as the same text.
pub proof fn lemma_bare_address(address: Seq<char>)
    requires
        valid_address(address),
    ensures
        parse(address) == Ok::<EmailAddressView, ParseError>(
            EmailAddressView { name: None, address },
        ),
        display_text(EmailAddressView { name: None, address }) == address,
{
    if name_split(address) is Some {
        lemma_name_split_is_split(address);
        assert(!is_address_char(address[address.len() - 1]));
    }
}

/// `name <address>`, for a valid name and a valid address, parses to that name and address, and prints back as the same text.
pub proof fn lemma_named_address(name: Seq<char>, address: Seq<char>)
    requires
        valid_display_name(name),
        valid_address(address),
    ensures
        parse(name + seq![' ', '<'] + address + seq!['>']) == Ok::<EmailAddressView, ParseError>(
            EmailAddressView { name: Some(name), address },
        ),
        display_text(EmailAddressView { name: Some(name), address }) == name + seq![' ', '<']
            + address + seq!['>'],
{
    lemma_split_of_named(name, address);
}

/// A value whose display name, if any, and address are valid (among them
/// every value that parsing returns) prints to a text that parses back to the
/// same value.
pub proof fn lemma_round_trip(v: EmailAddressView)
    requires
        name_accepted(v),
        valid_address(v.address),
    ensures
        parse(display_text(v)) == Ok::<EmailAddressView, ParseError>(v),
{
    match v.name {
        Some(name) => {
            lemma_named_address(name, v.address);
        },
        None => {
            lemma_bare_address(v.address);
        },
    }
}

} // verus!
