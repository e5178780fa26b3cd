//! The forms that people submit, and how each is read: which submissions are
//! refused and what a valid one comes to.

use vstd::prelude::*;

use crate::graph::{snake_case, snake_cased};
use crate::text::{answer_form, normalize_answer, str_equal, trim_str, trimmed};

verus! {

/// Log-in form.
pub struct LoginForm {
    pub email: String,
    pub password: String,
}

/// Registration form.
pub struct RegisterForm {
    pub user_name: String,
    pub email: String,
    pub password: String,
}

/// Form with the code of a verification email.
pub struct VerifyForm {
    pub code: String,
}

/// Form that creates or edits a community.
pub struct CommunityForm {
    pub community_name: String,
    pub description: String,
    pub data_use_case: String,
    pub open: String,
}

/// Form that confirms the deletion of a community by its name.
pub struct DeleteCommunityForm {
    pub user_verify: String,
}

/// Form with one email address.
pub struct EmailForm {
    pub email: String,
}

/// Form with free text holding email addresses.
pub struct EmailsForm {
    pub emails: String,
}

/// Form that confirms the deletion of a person's profile.
pub struct DeleteForm {
    pub verify: String,
}

/// Query parameters of a page.
pub struct UrlParams {
    pub lang: Option<String>,
}

/// Form that edits an account.
pub struct UserForm {
    pub user_name: String,
    pub email: String,
}

/// Form that confirms the deletion of an account by its user name.
pub struct DeleteUserForm {
    pub user_verify: String,
}

/// The account details that a registration gives: the role is `user` and the email is
/// not validated yet.
pub struct Registration {
    pub user_name: String,
    pub email: String,
    pub password: String,
    pub role: String,
    pub validated: bool,
}

/// The confirmation sentence of a profile deletion.
pub open spec fn delete_profile_sentence() -> Seq<char> {
    "Delete my profile"@
}

impl LoginForm {
    /// The email (lowercased, trimmed) to look the account up by and the password
    /// (trimmed) to check; `None` when either field is empty.
    pub fn credentials(&self) -> (r: Option<(String, String)>)
        ensures
            r is None <==> (self.email@.len() == 0 || self.password@.len() == 0),
            r matches Some(c) ==> c.0@ == answer_form(self.email@) && c.1@ == trimmed(self.password@),
    {
        if self.email.unicode_len() == 0 || self.password.unicode_len() == 0 {
            return None;
        }
        Some((normalize_answer(self.email.as_str()), trim_str(self.password.as_str())))
    }
}

impl RegisterForm {
    /// The account to create: user name and password trimmed, email lowercased and
    /// trimmed; `None` when a field is empty.
    pub fn registration(&self) -> (r: Option<Registration>)
        ensures
            r is None <==> (self.email@.len() == 0 || self.password@.len() == 0 || self.user_name@.len() == 0),
            r matches Some(u) ==> {
                &&& u.email@ == answer_form(self.email@)
                &&& u.user_name@ == trimmed(self.user_name@)
                &&& u.password@ == trimmed(self.password@)
                &&& u.role@ == "user"@
                &&& !u.validated
            },
    {
        if self.email.unicode_len() == 0 || self.password.unicode_len() == 0 || self.user_name.unicode_len() == 0 {
            return None;
        }
        Some(Registration {
            user_name: trim_str(self.user_name.as_str()),
            email: normalize_answer(self.email.as_str()),
            password: trim_str(self.password.as_str()),
            role: "user".to_string(),
            validated: false,
        })
    }
}

impl VerifyForm {
    /// Whether the form validates the account of `session_user`, whose emailed code is
    /// `activation_code`: the session has an account and the trimmed code is that code.
    pub fn accepts(&self, session_user: &str, activation_code: &str) -> (r: bool)
        ensures
            r == (self.code@.len() > 0 && session_user@.len() > 0 && trimmed(self.code@) == activation_code@),
    {
        if self.code.unicode_len() == 0 || session_user.unicode_len() == 0 {
            return false;
        }
        str_equal(trim_str(self.code.as_str()).as_str(), activation_code)
    }
}

impl CommunityForm {
    /// The texts the community's phrases are made of: the name trimmed, the
    /// description and data use case lowercased and trimmed; `None` when the name or
    /// the description is empty.
    pub fn phrase_texts(&self) -> (r: Option<Vec<String>>)
        ensures
            r is None <==> (self.community_name@.len() == 0 || self.description@.len() == 0),
            r matches Some(t) ==> {
                &&& t@.len() == 3
                &&& t@[0]@ == trimmed(self.community_name@)
                &&& t@[1]@ == answer_form(self.description@)
                &&& t@[2]@ == answer_form(self.data_use_case@)
            },
    {
        if self.community_name.unicode_len() == 0 || self.description.unicode_len() == 0 {
            return None;
        }
        let mut t: Vec<String> = Vec::new();
        t.push(trim_str(self.community_name.as_str()));
        t.push(normalize_answer(self.description.as_str()));
        t.push(normalize_answer(self.data_use_case.as_str()));
        Some(t)
    }

    /// Whether the community is open to everyone: the field reads `open`.
    pub fn is_open(&self) -> (r: bool)
        ensures
            r == (self.open@ == "open"@),
    {
        str_equal(self.open.as_str(), "open")
    }
}

/// The slug of a community named `name`.
pub fn community_slug(name: &str) -> (r: String)
    ensures
        r@ == snake_cased(trimmed(name@)),
{
    snake_case(trim_str(name).as_str())
}

impl DeleteCommunityForm {
    /// Whether the trimmed confirmation is the community's name, `tag_text`.
    pub fn confirms(&self, tag_text: &str) -> (r: bool)
        ensures
            r == (trimmed(self.user_verify@) == tag_text@),
    {
        str_equal(trim_str(self.user_verify.as_str()).as_str(), tag_text)
    }
}

impl DeleteUserForm {
    /// Whether the trimmed confirmation is the account's user name.
    pub fn confirms(&self, user_name: &str) -> (r: bool)
        ensures
            r == (trimmed(self.user_verify@) == user_name@),
    {
        str_equal(trim_str(self.user_verify.as_str()).as_str(), user_name)
    }
}

impl DeleteForm {
    /// Whether the trimmed confirmation is the sentence "Delete my profile".
    pub fn confirms(&self) -> (r: bool)
        ensures
            r == (trimmed(self.verify@) == delete_profile_sentence()),
    {
        str_equal(trim_str(self.verify.as_str()).as_str(), "Delete my profile")
    }
}

impl EmailForm {
    /// The address to send to, as given; `None` when the field is empty.
    pub fn recipient(&self) -> (r: Option<String>)
        ensures
            r is None <==> self.email@.len() == 0,
            r matches Some(e) ==> e@ == self.email@,
    {
        if self.email.unicode_len() == 0 {
            None
        } else {
            Some(self.email.clone())
        }
    }
}

/// What an account edit changes.
pub struct AccountChanges {
    /// The new email, lowercased and trimmed, when it differs; the account must then
    /// be validated again.
    pub email: Option<String>,
    /// The new user name, trimmed, and its slug, when it differs.
    pub user_name: Option<(String, String)>,
}

impl UserForm {
    /// Whether the edit may go ahead: both fields are filled in and the editor is an
    /// administrator editing their own account (`session_user` is the slug `slug` of
    /// the edited account).
    pub fn permitted(&self, session_user: &str, slug: &str, role: &str) -> (r: bool)
        ensures
            r == (self.email@.len() > 0 && self.user_name@.len() > 0 && session_user@ == slug@ && role@ == "admin"@),
    {
        self.email.unicode_len() > 0 && self.user_name.unicode_len() > 0 && str_equal(session_user, slug)
            && str_equal(role, "admin")
    }

    /// What the edit changes of an account with `current_email` and
    /// `current_user_name`.
    pub fn changes(&self, current_email: &str, current_user_name: &str) -> (r: AccountChanges)
        ensures
            r.email is None <==> answer_form(self.email@) == current_email@,
            r.email matches Some(e) ==> e@ == answer_form(self.email@),
            r.user_name is None <==> trimmed(self.user_name@) == current_user_name@,
            r.user_name matches Some(u) ==> u.0@ == trimmed(self.user_name@) && u.1@ == snake_cased(trimmed(self.user_name@)),
    {
        let email = normalize_answer(self.email.as_str());
        let email_change = if str_equal(email.as_str(), current_email) {
            None
        } else {
            Some(email)
        };
        let name = trim_str(self.user_name.as_str());
        let name_change = if str_equal(name.as_str(), current_user_name) {
            None
        } else {
            let slug = snake_case(name.as_str());
            Some((name, slug))
        };
        AccountChanges { email: email_change, user_name: name_change }
    }
}

/// Whether the email verification page is for this visitor: anyone signed in, and
/// administrators.
pub fn may_see_verification(session_user: &str, role: &str) -> (r: bool)
    ensures
        r == (session_user@.len() > 0 || role@ == "admin"@),
{
    session_user.unicode_len() > 0 || str_equal(role, "admin")
}

} // verus!
