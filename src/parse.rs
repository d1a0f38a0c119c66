//! Parsing of separated pairs such as `800x600` or `-0.5,1.25`.
use vstd::prelude::*;
use vstd::string::*;
use crate::grid::PxWindow;

verus! {

/// `i` is the position of the first occurrence of `c` in `s`.
pub open spec fn is_first_index(s: Seq<char>, c: char, i: int) -> bool {
    &&& 0 <= i < s.len()
    &&& s[i] == c
    &&& forall|j: int| 0 <= j < i ==> s[j] != c
}

/// The text before and after the first occurrence of `c` in `s`, or `None`
/// where `c` does not occur.
pub open spec fn split_at_first(s: Seq<char>, c: char) -> Option<(Seq<char>, Seq<char>)> {
    if exists|i: int| is_first_index(s, c, i) {
        let i = choose|i: int| is_first_index(s, c, i);
        Some((s.subrange(0, i), s.subrange(i + 1, s.len() as int)))
    } else {
        None
    }
}

/// The value of a sequence of decimal digits.
pub open spec fn decimal_value(d: Seq<char>) -> nat
    decreases d.len(),
{
    if d.len() == 0 {
        0
    } else {
        decimal_value(d.drop_last()) * 10 + ((d.last() as int) - ('0' as int)) as nat
    }
}

/// Every character is an ASCII decimal digit.
pub open spec fn all_digits(d: Seq<char>) -> bool {
    forall|i: int| 0 <= i < d.len() ==> '0' <= #[trigger] d[i] <= '9'
}

/// The digits of an unsigned integer's text: what follows an optional `+`.
pub open spec fn unsigned_digits(s: Seq<char>) -> Seq<char> {
    if s.len() > 0 && s[0] == '+' {
        s.drop_first()
    } else {
        s
    }
}

/// The `usize` that the text `s` denotes: an optional `+` followed by one or
/// more decimal digits whose value fits; `None` for any other text.
pub open spec fn parsed_usize(s: Seq<char>) -> Option<usize> {
    let d = unsigned_digits(s);
    if d.len() > 0 && all_digits(d) && decimal_value(d) <= usize::MAX {
        Some(decimal_value(d) as usize)
    } else {
        None
    }
}

/// Relies on `<usize as FromStr>::from_str`: an optional `+` and then
/// decimal digits only, with an error on empty digits, on any other
/// character and on overflow.
#[verifier::external_body]
fn parse_usize(s: &str) -> (r: Option<usize>)
    ensures
        r == parsed_usize(s@),
{
    s.parse::<usize>().ok()
}

/// Relies on `FromStr::from_str` of `T`, whose outcome is that impl's own;
/// nothing is assumed of it.
#[verifier::external_body]
fn parse_value<T: std::str::FromStr>(s: &str) -> Option<T> {
    s.parse::<T>().ok()
}

proof fn lemma_first_index_unique(s: Seq<char>, c: char, i: int, k: int)
    requires
        is_first_index(s, c, i),
        is_first_index(s, c, k),
    ensures
        i == k,
{
    if i < k {
        assert(s[i] != c);
    } else if k < i {
        assert(s[k] != c);
    }
}

/// Splits `txt` at the first occurrence of `sep`.
pub fn split_pair(txt: &str, sep: char) -> (r: Option<(&str, &str)>)
    ensures
        match r {
            Some((a, b)) => split_at_first(txt@, sep) == Some((a@, b@)),
            None => split_at_first(txt@, sep) is None,
        },
{
    let n = txt.unicode_len();
    let mut i: usize = 0;
    while i < n
        invariant
            n == txt@.len(),
            i <= n,
            forall|j: int| 0 <= j < i ==> txt@[j] != sep,
        decreases n - i,
    {
        if txt.get_char(i) == sep {
            let left = txt.substring_char(0, i);
            let right = txt.substring_char(i + 1, n);
            proof {
                assert(is_first_index(txt@, sep, i as int));
                let k = choose|k: int| is_first_index(txt@, sep, k);
                lemma_first_index_unique(txt@, sep, i as int, k);
            }
            return Some((left, right));
        }
        i = i + 1;
    }
    proof {
        assert forall|k: int| !is_first_index(txt@, sep, k) by {
            if is_first_index(txt@, sep, k) {
                assert(txt@[k] != sep);
            }
        }
    }
    None
}

/// The pair of two parsed halves: present only where both halves parsed.
pub fn join_pair<T>(left: Option<T>, right: Option<T>) -> (r: Option<(T, T)>)
    ensures
        r is Some <==> (left is Some && right is Some),
        r is Some ==> r == Some((left->0, right->0)),
{
    match (left, right) {
        (Some(l), Some(r)) => Some((l, r)),
        _ => None,
    }
}

/// Parses `txt` as two values separated by the first `sep`, as in
/// `"400x600"` or `"1.5,-0.5"`. The text before and after the separator is
/// each parsed by `T`'s `FromStr`, and the pair is present where both parse;
/// there is no pair without a separator.
pub fn parse_pair<T: std::str::FromStr>(txt: &str, sep: char) -> (r: Option<(T, T)>)
    ensures
        split_at_first(txt@, sep) is None ==> r is None,
{
    match split_pair(txt, sep) {
        None => None,
        Some((left, right)) => join_pair(parse_value::<T>(left), parse_value::<T>(right)),
    }
}

/// The pixel window that the text `s` describes, `WIDTHxHEIGHT` with both
/// sides positive.
pub open spec fn parsed_px_window(s: Seq<char>) -> Option<PxWindow> {
    match split_at_first(s, 'x') {
        Some((a, b)) => match (parsed_usize(a), parsed_usize(b)) {
            (Some(width), Some(height)) => if width > 0 && height > 0 {
                Some(PxWindow { width, height })
            } else {
                None
            },
            _ => None,
        },
        None => None,
    }
}

/// Parses an image size written `WIDTHxHEIGHT`, such as `"800x600"`; a
/// zero side is rejected.
pub fn parse_px_window(txt: &str) -> (r: Option<PxWindow>)
    ensures
        r == parsed_px_window(txt@),
        r is Some ==> r->0.width > 0 && r->0.height > 0,
{
    match split_pair(txt, 'x') {
        None => None,
        Some((left, right)) => match (parse_usize(left), parse_usize(right)) {
            (Some(width), Some(height)) if width > 0 && height > 0 => Some(PxWindow { width, height }),
            _ => None,
        },
    }
}

} // verus!
