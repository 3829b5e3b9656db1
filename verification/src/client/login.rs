//! The client's login form: typing into its fields, what they display, and
//! the checks before a login request goes out.

use crate::text::{pop_char, trim, trim_end, trim_start};
use vstd::prelude::*;
use vstd::utf8::encode_utf8;
use vstd::string::{StrSliceExecFns, StringExecFns};

verus! {

/// The form field that receives typed text.
#[derive(Debug, Clone, Copy, PartialEq, Eq, Structural)]
pub enum FocusedField {
    Username,
    Password,
}

/// The login form.
pub struct FormState {
    pub username: String,
    pub password: String,
    pub focused: FocusedField,
}

/// A key pressed while the form is shown.
pub enum LoginKey {
    /// Text typed.
    Character(String),
    Backspace,
    Tab,
    Enter,
    /// Any other key, which the form ignores.
    Other,
}

/// What a batch of key presses did: whether the field texts changed, and
/// whether a submit was asked for.
#[derive(Debug, Clone, Copy, PartialEq, Eq, Structural)]
pub struct KeyOutcome {
    pub dirty: bool,
    pub submit: bool,
}

/// Why a login is not sent.
#[derive(Debug, Clone, Copy, PartialEq, Eq, Structural)]
pub enum LoginError {
    EmptyUsername,
    EmptyPassword,
}

/// A control character: Unicode general category `Cc`, which
/// `char::is_control` tests.
pub open spec fn is_control(c: char) -> bool {
    c <= '\u{1f}' || ('\u{7f}' <= c && c <= '\u{9f}')
}

/// Whether typed text holds no control character.
pub open spec fn printable(s: Seq<char>) -> bool {
    forall|i: int| 0 <= i < s.len() ==> !is_control(#[trigger] s[i])
}

/// The abstract value of the form: its two texts and its focus.
pub open spec fn form_view(f: FormState) -> (Seq<char>, Seq<char>, FocusedField) {
    (f.username@, f.password@, f.focused)
}

/// A text with its last character removed, if it has one.
pub open spec fn backspaced(s: Seq<char>) -> Seq<char> {
    if s.len() > 0 {
        s.drop_last()
    } else {
        s
    }
}

/// The form and outcome after one key press.
pub open spec fn key_step(
    f: (Seq<char>, Seq<char>, FocusedField),
    o: KeyOutcome,
    k: LoginKey,
) -> ((Seq<char>, Seq<char>, FocusedField), KeyOutcome) {
    let (u, p, focus) = f;
    match k {
        LoginKey::Character(t) => if printable(t@) {
            match focus {
                FocusedField::Username => ((u + t@, p, focus), KeyOutcome { dirty: true, ..o }),
                FocusedField::Password => ((u, p + t@, focus), KeyOutcome { dirty: true, ..o }),
            }
        } else {
            (f, o)
        },
        LoginKey::Backspace => match focus {
            FocusedField::Username => ((backspaced(u), p, focus), KeyOutcome { dirty: true, ..o }),
            FocusedField::Password => ((u, backspaced(p), focus), KeyOutcome { dirty: true, ..o }),
        },
        LoginKey::Tab => match focus {
            FocusedField::Username => ((u, p, FocusedField::Password), o),
            FocusedField::Password => ((u, p, FocusedField::Username), o),
        },
        LoginKey::Enter => (f, KeyOutcome { submit: true, ..o }),
        LoginKey::Other => (f, o),
    }
}

/// The form and outcome after a batch of key presses, in order.
pub open spec fn keys_effect(
    f: (Seq<char>, Seq<char>, FocusedField),
    keys: Seq<LoginKey>,
) -> ((Seq<char>, Seq<char>, FocusedField), KeyOutcome)
    decreases keys.len(),
{
    if keys.len() == 0 {
        (f, KeyOutcome { dirty: false, submit: false })
    } else {
        let (f0, o0) = keys_effect(f, keys.drop_last());
        key_step(f0, o0, keys.last())
    }
}

/// Whether typed text holds no control character.
fn is_printable(s: &str) -> (b: bool)
    ensures
        b == printable(s@),
{
    let n = s.unicode_len();
    let mut i: usize = 0;
    while i < n
        invariant
            n == s@.len(),
            i <= n,
            forall|j: int| 0 <= j < i ==> !is_control(#[trigger] s@[j]),
        decreases n - i,
    {
        let c = s.get_char(i);
        if c <= '\u{1f}' || ('\u{7f}' <= c && c <= '\u{9f}') {
            return false;
        }
        i = i + 1;
    }
    true
}

impl FormState {
    /// An empty form, with the user name focused.
    pub fn new() -> (f: FormState)
        ensures
            form_view(f) == (Seq::<char>::empty(), Seq::<char>::empty(), FocusedField::Username),
    {
        FormState { username: String::new(), password: String::new(), focused: FocusedField::Username }
    }

    /// Applies a batch of key presses: typed text without control
    /// characters goes into the focused field, backspace removes its last
    /// character, tab moves the focus, enter asks for a submit.
    pub fn handle_keys(&mut self, keys: &Vec<LoginKey>) -> (o: KeyOutcome)
        ensures
            (form_view(*final(self)), o) == keys_effect(form_view(*old(self)), keys@),
    {
        let mut o = KeyOutcome { dirty: false, submit: false };
        let mut i: usize = 0;
        while i < keys.len()
            invariant
                i <= keys@.len(),
                (form_view(*self), o) == keys_effect(form_view(*old(self)), keys@.take(i as int)),
            decreases keys@.len() - i,
        {
            proof {
                assert(keys@.take(i + 1).drop_last() =~= keys@.take(i as int));
            }
            let ghost before = form_view(*self);
            match &keys[i] {
                LoginKey::Character(t) => {
                    if is_printable(t.as_str()) {
                        match self.focused {
                            FocusedField::Username => self.username.append(t.as_str()),
                            FocusedField::Password => self.password.append(t.as_str()),
                        }
                        o = KeyOutcome { dirty: true, ..o };
                    }
                },
                LoginKey::Backspace => {
                    match self.focused {
                        FocusedField::Username => pop_char(&mut self.username),
                        FocusedField::Password => pop_char(&mut self.password),
                    }
                    o = KeyOutcome { dirty: true, ..o };
                },
                LoginKey::Tab => {
                    self.focused = match self.focused {
                        FocusedField::Username => FocusedField::Password,
                        FocusedField::Password => FocusedField::Username,
                    };
                },
                LoginKey::Enter => {
                    o = KeyOutcome { submit: true, ..o };
                },
                LoginKey::Other => {},
            }
            i = i + 1;
        }
        proof {
            assert(keys@.take(keys@.len() as int) =~= keys@);
        }
        o
    }

    /// What the user name field shows: its text and a cursor.
    pub fn username_display(&self) -> (t: String)
        ensures
            t@ == self.username@ + seq!['|'],
    {
        let mut t = self.username.clone();
        t.append("|");
        proof {
            reveal_strlit("|");
        }
        t
    }

    /// What the password field shows: a star for each byte of the
    /// password, and a cursor.
    pub fn password_display(&self) -> (t: String)
        ensures
            t@ == Seq::new((encode_utf8(self.password@).len() as usize) as nat, |i: int| '*') + seq!['|'],
    {
        let n = self.password.as_str().len();
        let mut t = String::new();
        let mut i: usize = 0;
        while i < n
            invariant
                i <= n,
                t@ == Seq::new(i as nat, |j: int| '*'),
            decreases n - i,
        {
            t.append("*");
            proof {
                reveal_strlit("*");
                assert(t@ =~= Seq::new((i + 1) as nat, |j: int| '*'));
            }
            i = i + 1;
        }
        t.append("|");
        proof {
            reveal_strlit("|");
            assert(t@ =~= Seq::new(n as nat, |j: int| '*') + seq!['|']);
        }
        t
    }
}

/// The checks before a login goes out: the user name, without surrounding
/// white space, must not be empty, nor the password. Gives the user name
/// to send.
pub fn validate_login(username: &String, password: &String) -> (r: Result<String, LoginError>)
    ensures
        trim_end(trim_start(username@)).len() == 0 ==> r == Err::<String, LoginError>(LoginError::EmptyUsername),
        trim_end(trim_start(username@)).len() > 0 && password@.len() == 0 ==> r == Err::<String, LoginError>(LoginError::EmptyPassword),
        r matches Ok(u) ==> u@ == trim_end(trim_start(username@)) && password@.len() > 0,
        r is Ok <==> trim_end(trim_start(username@)).len() > 0 && password@.len() > 0,
{
    let name = trim(username.as_str());
    if name.as_str().is_empty() {
        return Err(LoginError::EmptyUsername);
    }
    if password.as_str().is_empty() {
        return Err(LoginError::EmptyPassword);
    }
    Ok(name)
}

impl LoginError {
    /// The status line shown for the error.
    pub fn message(&self) -> (t: String)
        ensures
            t@ == match self {
                LoginError::EmptyUsername => "Username cannot be empty."@,
                LoginError::EmptyPassword => "Password cannot be empty."@,
            },
    {
        match self {
            LoginError::EmptyUsername => String::from_str("Username cannot be empty."),
            LoginError::EmptyPassword => String::from_str("Password cannot be empty."),
        }
    }
}

/// Tab moves the focus between the two fields: pressed twice it comes
/// back, leaving the texts and the outcome as they were.
pub proof fn law_tab_twice_restores_focus(f: (Seq<char>, Seq<char>, FocusedField), o: KeyOutcome)
    ensures
        ({
            let (f1, o1) = key_step(f, o, LoginKey::Tab);
            key_step(f1, o1, LoginKey::Tab)
        }) == (f, o),
{
}

/// Backspace edits the focused field only: after any batch of keys, one
/// more Backspace removes the last character of the focused field (if it
/// has one), leaves the other field and the focus as they were, marks the
/// form changed and leaves the submit request as it was.
pub proof fn law_backspace_edits_focused_field_only(f: (Seq<char>, Seq<char>, FocusedField), keys: Seq<LoginKey>)
    ensures
        ({
            let (before, o0) = keys_effect(f, keys);
            let (after, o1) = keys_effect(f, keys.push(LoginKey::Backspace));
            let (focused_before, focused_after, other_before, other_after) = match before.2 {
                FocusedField::Username => (before.0, after.0, before.1, after.1),
                FocusedField::Password => (before.1, after.1, before.0, after.0),
            };
            &&& after.2 == before.2
            &&& other_after == other_before
            &&& focused_after.len() == if focused_before.len() > 0 {
                focused_before.len() - 1
            } else {
                0
            }
            &&& focused_after == focused_before.subrange(0, focused_after.len() as int)
            &&& o1.dirty
            &&& o1.submit == o0.submit
        }),
{
    assert(keys.push(LoginKey::Backspace).drop_last() =~= keys);
    let (before, o0) = keys_effect(f, keys);
    assert(before.0.len() > 0 ==> before.0.drop_last() =~= before.0.subrange(0, before.0.len() - 1));
    assert(before.1.len() > 0 ==> before.1.drop_last() =~= before.1.subrange(0, before.1.len() - 1));
    assert(before.0 =~= before.0.subrange(0, before.0.len() as int));
    assert(before.1 =~= before.1.subrange(0, before.1.len() as int));
}

/// The other keys, pressed after any batch: printable text is appended to
/// the focused field only and marks the form changed, other text changes
/// nothing; Tab moves the focus to the other field and changes nothing
/// else; Enter asks for a submit and leaves the form as it was; any other
/// key changes nothing.
pub proof fn law_keys_after_a_batch(f: (Seq<char>, Seq<char>, FocusedField), keys: Seq<LoginKey>, k: LoginKey)
    ensures
        ({
            let (before, o0) = keys_effect(f, keys);
            let (after, o1) = keys_effect(f, keys.push(k));
            match k {
                LoginKey::Character(t) => if printable(t@) {
                    &&& after.2 == before.2
                    &&& o1.dirty && o1.submit == o0.submit
                    &&& (before.2 == FocusedField::Username ==> after.0 == before.0 + t@ && after.1 == before.1)
                    &&& (before.2 == FocusedField::Password ==> after.1 == before.1 + t@ && after.0 == before.0)
                } else {
                    after == before && o1 == o0
                },
                LoginKey::Tab => after.0 == before.0 && after.1 == before.1 && after.2 != before.2 && o1 == o0,
                LoginKey::Enter => after == before && o1.submit && o1.dirty == o0.dirty,
                LoginKey::Other => after == before && o1 == o0,
                LoginKey::Backspace => after.2 == before.2,
            }
        }),
{
    assert(keys.push(k).drop_last() =~= keys);
}

} // verus!
