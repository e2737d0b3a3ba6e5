//! Small text helpers: first names and phone numbers out of chat identifiers.

use vstd::prelude::*;
use crate::text::{chars_of, owned, push_char};

verus! {

/// What `get_first_name` makes of a full name: empty stays empty, a name
/// with a space gives the first character of its first word (nothing when it
/// starts with the space), a single word is kept whole.
pub open spec fn first_name_of(name: Seq<char>) -> Seq<char> {
    if name.len() == 0 {
        Seq::empty()
    } else if name.contains(' ') {
        if name[0] == ' ' {
            Seq::empty()
        } else {
            seq![name[0]]
        }
    } else {
        name
    }
}

/// Gets only the first name from a full name.
pub fn get_first_name(name: &str) -> (r: String)
    ensures
        r@ == first_name_of(name@),
{
    let cs = chars_of(name);
    if cs.len() == 0 {
        return String::new();
    }
    let mut i: usize = 0;
    while i < cs.len()
        invariant
            cs@ == name@,
            i <= cs@.len(),
            forall|k: int| 0 <= k < i ==> cs@[k] != ' ',
        decreases cs@.len() - i,
    {
        if cs[i] == ' ' {
            let mut r = String::new();
            assert(name@.contains(' '));
            if cs[0] == ' ' {
                return r;
            }
            push_char(&mut r, cs[0]);
            assert(name@.contains(' '));
            assert(r@ =~= seq![name@[0]]);
            return r;
        }
        i = i + 1;
    }
    assert(!name@.contains(' '));
    owned(name)
}

/// `k` ends the user part of a chat identifier: the first `@`, or the end.
pub open spec fn is_user_cut(jid: Seq<char>, k: int) -> bool {
    &&& 0 <= k <= jid.len()
    &&& k < jid.len() ==> jid[k] == '@'
    &&& forall|j: int| 0 <= j < k ==> jid[j] != '@'
}

/// The part of a chat identifier before its first `@` (all of it if none).
pub open spec fn user_part(jid: Seq<char>) -> Seq<char> {
    jid.subrange(0, choose|k: int| is_user_cut(jid, k))
}

/// The phone number a chat identifier names: `+` and its user part.
pub open spec fn phone_of(jid: Seq<char>) -> Seq<char> {
    seq!['+'] + user_part(jid)
}

proof fn lemma_user_cut_unique(jid: Seq<char>, k: int)
    requires
        is_user_cut(jid, k),
    ensures
        user_part(jid) == jid.subrange(0, k),
{
    let c = choose|c: int| is_user_cut(jid, c);
    assert(is_user_cut(jid, c));
    if c < k {
        assert(jid[c] != '@');
    } else if k < c {
        assert(jid[k] != '@');
    }
}

/// Extracts the phone number from a chat identifier.
pub fn extract_phone_from_jid(jid: &str) -> (r: String)
    ensures
        r@ == phone_of(jid@),
{
    let cs = chars_of(jid);
    let mut r = String::new();
    push_char(&mut r, '+');
    let mut i: usize = 0;
    while i < cs.len() && cs[i] != '@'
        invariant
            cs@ == jid@,
            i <= cs@.len(),
            forall|k: int| 0 <= k < i ==> cs@[k] != '@',
            r@ == seq!['+'] + jid@.subrange(0, i as int),
        decreases cs@.len() - i,
    {
        push_char(&mut r, cs[i]);
        assert(jid@.subrange(0, i as int + 1) =~= jid@.subrange(0, i as int).push(cs@[i as int]));
        i = i + 1;
    }
    proof {
        lemma_user_cut_unique(jid@, i as int);
    }
    r
}

/// The international format of a phone number, as rlibphonenumber writes
/// it; `None` where the text does not parse as a phone number.
pub uninterp spec fn international_format(phone: Seq<char>) -> Option<Seq<char>>;

/// Relies on rlibphonenumber's `PhoneNumber::from_str` (parsing with no
/// default region) and `PhoneNumber::format_as(PhoneNumberFormat::International)`.
#[verifier::external_body]
fn format_international(phone: &str) -> (r: Option<String>)
    ensures
        match r {
            Some(s) => international_format(phone@) == Some(s@),
            None => international_format(phone@) is None,
        },
{
    match phone.parse::<rlibphonenumber::PhoneNumber>() {
        Ok(number) => Some(
            number.format_as(rlibphonenumber::PhoneNumberFormat::International).into_owned(),
        ),
        Err(_) => None,
    }
}

/// Formats a chat identifier as an international phone number, or as `+`
/// and its user part where that does not parse as one.
pub fn format_lid_as_number(lid: &str) -> (r: String)
    ensures
        r@ == match international_format(phone_of(lid@)) {
            Some(f) => f,
            None => phone_of(lid@),
        },
{
    let phone = extract_phone_from_jid(lid);
    match format_international(phone.as_str()) {
        Some(formatted) => formatted,
        None => phone,
    }
}

} // verus!
