//! The login screen's logic: what the typed keys do to the login, and when the
//! client leaves the screen.

use vstd::prelude::*;

verus! {

/// The login that the user has typed so far.
#[derive(Debug)]
pub struct CurrentUserLogin(pub String);

/// A key as far as the login screen cares.
#[derive(Clone, Copy, Debug, PartialEq, Eq, Structural)]
pub enum LoginKey {
    Enter,
    Backspace,
    Other,
}

/// The login screen.
#[derive(Clone, Copy, Debug)]
pub struct LoginPlugin;

/// A text without the white space at its two ends, as `str::trim` gives it.
pub uninterp spec fn trimmed(text: Seq<char>) -> Seq<char>;

/// `str::trim`: the slice without leading and trailing white space.
#[verifier::external_body]
fn str_trim(text: &str) -> (inner: &str)
    ensures
        inner@ == trimmed(text@),
{
    text.trim()
}

/// `String::pop`: takes the last character off and returns it; an empty string
/// stays as it is and gives nothing.
#[verifier::external_body]
fn string_pop(text: &mut String) -> (last: Option<char>)
    ensures
        last == (if old(text)@.len() > 0 {
            Some(old(text)@.last())
        } else {
            None
        }),
        final(text)@ == (if old(text)@.len() > 0 {
            old(text)@.drop_last()
        } else {
            old(text)@
        }),
{
    text.pop()
}

/// The text after one key: backspace takes the last character off, no other key
/// changes the text.
pub open spec fn after_key(text: Seq<char>, key: LoginKey) -> Seq<char> {
    if key == LoginKey::Backspace && text.len() > 0 {
        text.drop_last()
    } else {
        text
    }
}

/// Whether a key submits the login: it is the enter key, and the login holds more
/// than white space.
pub open spec fn submits(text: Seq<char>, key: LoginKey) -> bool {
    key == LoginKey::Enter && trimmed(text).len() > 0
}

/// Whether a run of keys submits the login. Keys after the one that submits do
/// nothing.
pub open spec fn keys_submit(text: Seq<char>, keys: Seq<LoginKey>) -> bool
    decreases keys.len(),
{
    if keys.len() == 0 {
        false
    } else if submits(text, keys.first()) {
        true
    } else {
        keys_submit(after_key(text, keys.first()), keys.drop_first())
    }
}

/// The text after a run of keys, up to the key that submits, if one does.
pub open spec fn after_keys(text: Seq<char>, keys: Seq<LoginKey>) -> Seq<char>
    decreases keys.len(),
{
    if keys.len() == 0 || submits(text, keys.first()) {
        text
    } else {
        after_keys(after_key(text, keys.first()), keys.drop_first())
    }
}

/// The text with the typed characters added at its end, in order.
pub open spec fn typed(text: Seq<char>, chars: Seq<String>) -> Seq<char>
    decreases chars.len(),
{
    if chars.len() == 0 {
        text
    } else {
        typed(text, chars.drop_last()) + chars.last()@
    }
}

/// Whether a login with this inner text, white space at its ends taken off, can be
/// submitted.
pub fn can_submit(inner: &str) -> (b: bool)
    ensures
        b == (inner@.len() > 0),
{
    !inner.is_empty()
}

impl LoginPlugin {
    /// The login that the screen starts with: empty.
    pub fn build() -> (login: CurrentUserLogin)
        ensures
            login.0@ == Seq::<char>::empty(),
    {
        CurrentUserLogin(String::new())
    }

    /// Takes the input of one frame: first the keys, then the typed characters.
    /// Returns whether the login was submitted; if so, the rest of the input is
    /// dropped.
    pub fn login_input(
        login: &mut CurrentUserLogin,
        keys: &Vec<LoginKey>,
        chars: &Vec<String>,
    ) -> (submitted: bool)
        ensures
            submitted == keys_submit(old(login).0@, keys@),
            final(login).0@ == (if submitted {
                after_keys(old(login).0@, keys@)
            } else {
                typed(after_keys(old(login).0@, keys@), chars@)
            }),
    {
        let mut i: usize = 0;
        proof {
            assert(keys@.skip(0) =~= keys@);
        }
        while i < keys.len()
            invariant
                i <= keys.len(),
                keys_submit(old(login).0@, keys@) == keys_submit(login.0@, keys@.skip(i as int)),
                after_keys(old(login).0@, keys@) == after_keys(login.0@, keys@.skip(i as int)),
            decreases keys.len() - i,
        {
            proof {
                assert(keys@.skip(i as int).first() == keys@[i as int]);
                assert(keys@.skip(i as int).drop_first() =~= keys@.skip(i + 1));
            }
            match keys[i] {
                LoginKey::Enter => {
                    if can_submit(str_trim(login.0.as_str())) {
                        return true;
                    }
                },
                LoginKey::Backspace => {
                    string_pop(&mut login.0);
                },
                LoginKey::Other => {},
            }
            i = i + 1;
        }
        let ghost keyed = login.0@;
        let mut j: usize = 0;
        proof {
            assert(keys@.skip(i as int).len() == 0);
            assert(chars@.take(0).len() == 0);
        }
        while j < chars.len()
            invariant
                j <= chars.len(),
                login.0@ == typed(keyed, chars@.take(j as int)),
            decreases chars.len() - j,
        {
            proof {
                assert(chars@.take(j + 1).drop_last() =~= chars@.take(j as int));
            }
            login.0.append(chars[j].as_str());
            j = j + 1;
        }
        proof {
            assert(chars@.take(j as int) =~= chars@);
        }
        false
    }

    /// The text that the login field shows: the login, and a cursor after it.
    pub fn label(login: &CurrentUserLogin) -> (shown: String)
        ensures
            shown@ == login.0@.push('_'),
    {
        let mut shown = login.0.clone();
        proof {
            reveal_strlit("_");
        }
        shown.append("_");
        assert(shown@ =~= login.0@.push('_'));
        shown
    }
}

} // verus!
