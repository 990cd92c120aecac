use vstd::prelude::*;
use vstd::string::*;

use crate::crypto::{gen_login_code, mint_bearer, now_utc_string, stoken, stoken_of};
use crate::errors::ErrorCode;
use crate::text::{is_username_valid, str_eq, valid_username};

verus! {

/// A user record of the identity store.
#[derive(Debug)]
pub struct AuthUser {
    pub id: i64,
    pub username: String,
    pub email: String,
    pub pending_new_email: Option<String>,
    pub avatar: String,
    pub login_code: Option<u32>,
    pub tokens: Vec<String>,
    pub servers: Vec<String>,
}

/// The mathematical shape of a user record.
#[verifier::ext_equal]
pub ghost struct AuthUserView {
    pub id: int,
    pub username: Seq<char>,
    pub email: Seq<char>,
    pub pending_new_email: Option<Seq<char>>,
    pub avatar: Seq<char>,
    pub login_code: Option<u32>,
    pub tokens: Seq<Seq<char>>,
    pub servers: Seq<Seq<char>>,
}

impl View for AuthUser {
    type V = AuthUserView;

    open spec fn view(&self) -> AuthUserView {
        AuthUserView {
            id: self.id as int,
            username: self.username@,
            email: self.email@,
            pending_new_email: self.pending_new_email.deep_view(),
            avatar: self.avatar@,
            login_code: self.login_code,
            tokens: self.tokens.deep_view(),
            servers: self.servers.deep_view(),
        }
    }
}

/// The SMTP endpoint and sender identity used to dispatch login codes; held
/// for the mail-sending edge, with no bearing on the store's logic.
#[derive(Debug)]
pub struct AuthEmail {
    pub server_address: String,
    pub server_port: u16,
    pub auth_name: String,
    pub auth_from_address: String,
    pub auth_username: String,
    pub auth_password: String,
}

/// An email the caller still has to dispatch: the addressee and the freshly
/// minted six-digit code, handed back by a flow initiator.
#[derive(Debug)]
pub struct MailTask {
    pub username: String,
    pub email: String,
    pub code: u32,
}

/// Some user holds this username.
pub open spec fn username_taken(users: Seq<AuthUserView>, username: Seq<char>) -> bool {
    exists|i: int| 0 <= i < users.len() && users[i].username == username
}

/// Some user holds this email.
pub open spec fn email_taken(users: Seq<AuthUserView>, email: Seq<char>) -> bool {
    exists|i: int| 0 <= i < users.len() && users[i].email == email
}

/// The index of the user holding this username; meaningful only when the
/// username is taken (well-formedness makes it unique).
pub open spec fn user_at(users: Seq<AuthUserView>, username: Seq<char>) -> int {
    choose|i: int| 0 <= i < users.len() && users[i].username == username
}

/// No two elements of `s` are equal.
pub open spec fn distinct_seq<A>(s: Seq<A>) -> bool {
    forall|i: int, j: int| 0 <= i < j < s.len() ==> s[i] != s[j]
}

impl AuthUserView {
    /// A single record's invariant: a well-formed username for this store's
    /// domain, a six-digit code when one is outstanding, and set semantics
    /// for the token and joined-server collections.
    pub open spec fn wf(self, domain: Seq<char>) -> bool {
        &&& valid_username(self.username, domain)
        &&& match self.login_code {
            Some(c) => 100000 <= c <= 999999,
            None => true,
        }
        &&& distinct_seq(self.tokens)
        &&& distinct_seq(self.servers)
    }
}

/// The mathematical shape of the identity store.
#[verifier::ext_equal]
pub ghost struct AuthServerView {
    pub domain: Seq<char>,
    pub next_id: int,
    pub users: Seq<AuthUserView>,
}

impl AuthServerView {
    /// The store invariant: each record well-formed, usernames and emails
    /// unique, ids unique and below the id counter.
    pub open spec fn wf(self) -> bool {
        &&& 0 < self.next_id
        &&& forall|i: int| 0 <= i < self.users.len() ==> (#[trigger] self.users[i]).wf(self.domain)
        &&& forall|i: int|
            0 <= i < self.users.len() ==> 0 < (#[trigger] self.users[i]).id < self.next_id
        &&& forall|i: int, j: int|
            0 <= i < j < self.users.len() ==> (#[trigger] self.users[i]).username != (
            #[trigger] self.users[j]).username
        &&& forall|i: int, j: int|
            0 <= i < j < self.users.len() ==> (#[trigger] self.users[i]).email != (
            #[trigger] self.users[j]).email
        &&& forall|i: int, j: int|
            0 <= i < j < self.users.len() ==> (#[trigger] self.users[i]).id != (
            #[trigger] self.users[j]).id
    }
}

/// With unique usernames, `user_at` names the one index holding a username.
pub proof fn lemma_user_at(users: Seq<AuthUserView>, username: Seq<char>, i: int)
    requires
        forall|p: int, q: int|
            0 <= p < q < users.len() ==> (#[trigger] users[p]).username != (
            #[trigger] users[q]).username,
        0 <= i < users.len(),
        users[i].username == username,
    ensures
        user_at(users, username) == i,
        username_taken(users, username),
{
    let j = user_at(users, username);
    if j != i {
        if j < i {
            assert(users[j].username != users[i].username);
        } else {
            assert(users[i].username != users[j].username);
        }
    }
}

/// The identity store of one Auth Service: user records keyed by username,
/// with a unique secondary key on email.
pub struct RealmAuthServer {
    pub domain: String,
    pub next_id: i64,
    pub users: Vec<AuthUser>,
}

impl View for RealmAuthServer {
    type V = AuthServerView;

    open spec fn view(&self) -> AuthServerView {
        AuthServerView {
            domain: self.domain@,
            next_id: self.next_id as int,
            users: Seq::new(self.users@.len(), |i: int| self.users@[i]@),
        }
    }
}

impl RealmAuthServer {
    /// An empty store for the given domain.
    pub fn new(domain: String) -> (r: RealmAuthServer)
        ensures
            r@.wf(),
            r@.domain == domain@,
            r@.users.len() == 0,
            r@.next_id == 1,
    {
        RealmAuthServer { domain, next_id: 1, users: Vec::new() }
    }

    /// The index of the record holding this username, if any.
    fn find_user(&self, username: &str) -> (r: Option<usize>)
        ensures
            match r {
                Some(i) => i < self@.users.len() && self@.users[i as int].username == username@,
                None => !username_taken(self@.users, username@),
            },
    {
        let mut i: usize = 0;
        while i < self.users.len()
            invariant
                forall|j: int| 0 <= j < i ==> (#[trigger] self@.users[j]).username != username@,
                i <= self@.users.len(),
                self@.users.len() == self.users@.len(),
            decreases self.users@.len() - i,
        {
            if str_eq(self.users[i].username.as_str(), username) {
                return Some(i);
            }
            i = i + 1;
        }
        None
    }

    /// The index of the record holding this email, if any.
    fn find_user_by_email(&self, email: &str) -> (r: Option<usize>)
        ensures
            match r {
                Some(i) => i < self@.users.len() && self@.users[i as int].email == email@,
                None => !email_taken(self@.users, email@),
            },
    {
        let mut i: usize = 0;
        while i < self.users.len()
            invariant
                forall|j: int| 0 <= j < i ==> (#[trigger] self@.users[j]).email != email@,
                i <= self@.users.len(),
                self@.users.len() == self.users@.len(),
            decreases self.users@.len() - i,
        {
            if str_eq(self.users[i].email.as_str(), email) {
                return Some(i);
            }
            i = i + 1;
        }
        None
    }

    /// Whether a record holds this username.
    pub fn is_username_taken(&self, username: &str) -> (r: bool)
        ensures
            r == username_taken(self@.users, username@),
    {
        match self.find_user(username) {
            Some(i) => {
                proof {
                    assert(username_taken(self@.users, username@));
                }
                true
            },
            None => false,
        }
    }

    /// Whether a record holds this email.
    pub fn is_email_taken(&self, email: &str) -> (r: bool)
        ensures
            r == email_taken(self@.users, email@),
    {
        match self.find_user_by_email(email) {
            Some(i) => {
                proof {
                    assert(email_taken(self@.users, email@));
                }
                true
            },
            None => false,
        }
    }

    /// Whether this bearer token is in the user's active set; the user must
    /// exist.
    pub fn is_authorized(&self, username: &str, token: &str) -> (r: Result<bool, ErrorCode>)
        requires
            self@.wf(),
        ensures
            match r {
                Ok(b) => username_taken(self@.users, username@) && b == self@.users[user_at(
                    self@.users,
                    username@,
                )].tokens.contains(token@),
                Err(e) => e == ErrorCode::InvalidUsername && !username_taken(
                    self@.users,
                    username@,
                ),
            },
    {
        match self.find_user(username) {
            Some(i) => {
                proof {
                    lemma_user_at(self@.users, username@, i as int);
                }
                Ok(token_in_set(&self.users[i].tokens, token))
            },
            None => Err(ErrorCode::InvalidUsername),
        }
    }
}

/// The index of the user holding this email; meaningful only when the email
/// is taken (well-formedness makes it unique).
pub open spec fn email_at(users: Seq<AuthUserView>, email: Seq<char>) -> int {
    choose|i: int| 0 <= i < users.len() && users[i].email == email
}

/// With unique emails, `email_at` names the one index holding an email.
pub proof fn lemma_email_at(users: Seq<AuthUserView>, email: Seq<char>, i: int)
    requires
        forall|p: int, q: int|
            0 <= p < q < users.len() ==> (#[trigger] users[p]).email != (#[trigger] users[q]).email,
        0 <= i < users.len(),
        users[i].email == email,
    ensures
        email_at(users, email) == i,
        email_taken(users, email),
{
    let j = email_at(users, email);
    if j != i {
        if j < i {
            assert(users[j].email != users[i].email);
        } else {
            assert(users[i].email != users[j].email);
        }
    }
}

/// Replacing one record with a record of the same identity keeps the store
/// well-formed, provided no other record holds the replacement's email.
proof fn lemma_wf_update_user(s: AuthServerView, i: int, u: AuthUserView)
    requires
        s.wf(),
        0 <= i < s.users.len(),
        u.username == s.users[i].username,
        u.id == s.users[i].id,
        u.wf(s.domain),
        forall|j: int|
            0 <= j < s.users.len() && j != i ==> (#[trigger] s.users[j]).email != u.email,
    ensures
        (AuthServerView { users: s.users.update(i, u), ..s }).wf(),
{
}

/// Removing a record keeps the store well-formed.
proof fn lemma_wf_remove_user(s: AuthServerView, i: int)
    requires
        s.wf(),
        0 <= i < s.users.len(),
    ensures
        (AuthServerView { users: s.users.remove(i), ..s }).wf(),
{
    s.users.remove_ensures(i);
    let users = s.users.remove(i);
    assert forall|p: int, q: int| 0 <= p < q < users.len() implies (#[trigger] users[p]).username
        != (#[trigger] users[q]).username && (#[trigger] users[p]).email != (
    #[trigger] users[q]).email && (#[trigger] users[p]).id != (#[trigger] users[q]).id by {
        let p0 = if p < i { p } else { p + 1 };
        let q0 = if q < i { q } else { q + 1 };
        assert(users[p] == s.users[p0]);
        assert(users[q] == s.users[q0]);
    }
}

/// The fresh record inserted by account creation: empty avatar, token set and
/// server list, and the minted code outstanding.
pub open spec fn new_user_view(
    id: int,
    username: Seq<char>,
    email: Seq<char>,
    code: u32,
) -> AuthUserView {
    AuthUserView {
        id,
        username,
        email,
        pending_new_email: None,
        avatar: Seq::empty(),
        login_code: Some(code),
        tokens: Seq::empty(),
        servers: Seq::empty(),
    }
}

/// Why account creation is refused: a malformed username, a taken username,
/// or a taken email, in that order; `None` when it succeeds.
pub open spec fn create_account_err(
    s: AuthServerView,
    username: Seq<char>,
    email: Seq<char>,
) -> Option<ErrorCode> {
    if !valid_username(username, s.domain) {
        Some(ErrorCode::InvalidUsername)
    } else if username_taken(s.users, username) {
        Some(ErrorCode::UsernameTaken)
    } else if email_taken(s.users, email) {
        Some(ErrorCode::EmailTaken)
    } else {
        None
    }
}

/// The store after a successful account creation.
pub open spec fn create_account_post(
    s: AuthServerView,
    username: Seq<char>,
    email: Seq<char>,
    code: u32,
) -> AuthServerView {
    AuthServerView {
        next_id: s.next_id + 1,
        users: s.users.push(new_user_view(s.next_id, username, email, code)),
        ..s
    }
}

/// Why login initiation is refused: no selector at all, an unknown username,
/// or an unknown email; `None` when it succeeds.
pub open spec fn login_err(
    s: AuthServerView,
    username: Option<Seq<char>>,
    email: Option<Seq<char>>,
) -> Option<ErrorCode> {
    match username {
        Some(u) => if username_taken(s.users, u) {
            None
        } else {
            Some(ErrorCode::InvalidUsername)
        },
        None => match email {
            Some(e) => if email_taken(s.users, e) {
                None
            } else {
                Some(ErrorCode::InvalidEmail)
            },
            None => Some(ErrorCode::Error),
        },
    }
}

/// The record login initiation resolves: by username when one is given, else
/// by email; meaningful only when `login_err` is `None`.
pub open spec fn login_target(
    s: AuthServerView,
    username: Option<Seq<char>>,
    email: Option<Seq<char>>,
) -> int {
    match username {
        Some(u) => user_at(s.users, u),
        None => match email {
            Some(e) => email_at(s.users, e),
            None => 0,
        },
    }
}

/// A bearer token joining the active set: appended unless already present,
/// keeping set semantics.
pub open spec fn push_token(tokens: Seq<Seq<char>>, t: Seq<char>) -> Seq<Seq<char>> {
    if tokens.contains(t) {
        tokens
    } else {
        tokens.push(t)
    }
}

impl RealmAuthServer {
    /// Two-phase enrollment, first half: gate the username format, refuse
    /// conflicts, insert the user with a freshly minted code, and hand the
    /// code back for out-of-band dispatch to the given address.
    pub fn create_account_flow(&mut self, username: String, email: String) -> (r: Result<
        u32,
        ErrorCode,
    >)
        requires
            old(self)@.wf(),
            old(self).next_id < i64::MAX,
        ensures
            final(self)@.wf(),
            final(self)@.domain == old(self)@.domain,
            match r {
                Ok(code) => 100000 <= code <= 999999 && create_account_err(
                    old(self)@,
                    username@,
                    email@,
                ) is None && final(self)@ == create_account_post(
                    old(self)@,
                    username@,
                    email@,
                    code,
                ),
                Err(e) => create_account_err(old(self)@, username@, email@) == Some(e)
                    && final(self)@ == old(self)@,
            },
    {
        if !is_username_valid(username.as_str(), self.domain.as_str()) {
            return Err(ErrorCode::InvalidUsername);
        }
        if self.is_username_taken(username.as_str()) {
            return Err(ErrorCode::UsernameTaken);
        }
        if self.is_email_taken(email.as_str()) {
            return Err(ErrorCode::EmailTaken);
        }
        let code = gen_login_code();
        let id = self.next_id;
        self.next_id = self.next_id + 1;
        let user = AuthUser {
            id,
            username,
            email,
            pending_new_email: None,
            avatar: String::new(),
            login_code: Some(code),
            tokens: Vec::new(),
            servers: Vec::new(),
        };
        proof {
            assert(user@ =~= new_user_view(id as int, user.username@, user.email@, code));
        }
        self.users.push(user);
        proof {
            assert(self@.users =~~= old(self)@.users.push(
                new_user_view(old(self)@.next_id, username@, email@, code),
            ));
            assert(self@ =~~= create_account_post(old(self)@, username@, email@, code));
        }
        Ok(code)
    }

    /// Login, first half: resolve the account by username or email, mint and
    /// persist a fresh code, and hand back whom to email and what.
    pub fn create_login_flow(&mut self, username: Option<String>, email: Option<String>) -> (r:
        Result<MailTask, ErrorCode>)
        requires
            old(self)@.wf(),
        ensures
            final(self)@.wf(),
            final(self)@.domain == old(self)@.domain,
            match r {
                Ok(task) => ({
                    let t = login_target(old(self)@, username.deep_view(), email.deep_view());
                    &&& login_err(old(self)@, username.deep_view(), email.deep_view()) is None
                    &&& 0 <= t < old(self)@.users.len()
                    &&& 100000 <= task.code <= 999999
                    &&& task.username@ == old(self)@.users[t].username
                    &&& task.email@ == old(self)@.users[t].email
                    &&& final(self)@ == AuthServerView {
                        users: old(self)@.users.update(
                            t,
                            AuthUserView { login_code: Some(task.code), ..old(self)@.users[t] },
                        ),
                        ..old(self)@
                    }
                }),
                Err(e) => login_err(old(self)@, username.deep_view(), email.deep_view()) == Some(e)
                    && final(self)@ == old(self)@,
            },
    {
        let idx: usize = match &username {
            Some(u) => {
                match self.find_user(u.as_str()) {
                    Some(i) => {
                        proof {
                            lemma_user_at(self@.users, u@, i as int);
                        }
                        i
                    },
                    None => {
                        return Err(ErrorCode::InvalidUsername);
                    },
                }
            },
            None => {
                match &email {
                    Some(e) => {
                        match self.find_user_by_email(e.as_str()) {
                            Some(i) => {
                                proof {
                                    lemma_email_at(self@.users, e@, i as int);
                                }
                                i
                            },
                            None => {
                                return Err(ErrorCode::InvalidEmail);
                            },
                        }
                    },
                    None => {
                        return Err(ErrorCode::Error);
                    },
                }
            },
        };
        let code = gen_login_code();
        let user_username = self.users[idx].username.clone();
        let user_email = self.users[idx].email.clone();
        let ghost pre = *self;
        self.users[idx].login_code = Some(code);
        proof {
            let t = idx as int;
            let u2 = AuthUserView { login_code: Some(code), ..pre@.users[t] };
            assert(self@.users =~= pre@.users.update(t, u2));
            lemma_wf_update_user(pre@, t, u2);
        }
        Ok(MailTask { username: user_username, email: user_email, code })
    }

    /// Login, second half: consume a matching code and mint a fresh bearer
    /// token, 64 hex characters, appended to the active set.
    pub fn finish_login_flow(&mut self, username: &str, login_code: u32) -> (r: Result<
        String,
        ErrorCode,
    >)
        requires
            old(self)@.wf(),
        ensures
            final(self)@.wf(),
            final(self)@.domain == old(self)@.domain,
            match r {
                Ok(token) => ({
                    let t = user_at(old(self)@.users, username@);
                    &&& username_taken(old(self)@.users, username@)
                    &&& old(self)@.users[t].login_code == Some(login_code)
                    &&& token@.len() == 64
                    &&& final(self)@ == AuthServerView {
                        users: old(self)@.users.update(
                            t,
                            AuthUserView {
                                login_code: None,
                                tokens: push_token(old(self)@.users[t].tokens, token@),
                                ..old(self)@.users[t]
                            },
                        ),
                        ..old(self)@
                    }
                }),
                Err(e) => final(self)@ == old(self)@ && (if !username_taken(
                    old(self)@.users,
                    username@,
                ) {
                    e == ErrorCode::InvalidUsername
                } else {
                    e == ErrorCode::InvalidLoginCode && old(self)@.users[user_at(
                        old(self)@.users,
                        username@,
                    )].login_code != Some(login_code)
                }),
            },
    {
        let idx = match self.find_user(username) {
            Some(i) => i,
            None => {
                return Err(ErrorCode::InvalidUsername);
            },
        };
        proof {
            lemma_user_at(self@.users, username@, idx as int);
        }
        let matches_code = match self.users[idx].login_code {
            Some(c) => c == login_code,
            None => false,
        };
        if !matches_code {
            return Err(ErrorCode::InvalidLoginCode);
        }
        let ghost pre = *self;
        self.users[idx].login_code = None;
        let now = now_utc_string();
        let token = mint_bearer(username, login_code, now.as_str());
        let fresh = !token_in_set(&self.users[idx].tokens, token.as_str());
        if fresh {
            let stored = token.clone();
            self.users[idx].tokens.push(stored);
        }
        proof {
            let t = idx as int;
            let u2 = AuthUserView {
                login_code: None,
                tokens: push_token(pre@.users[t].tokens, token@),
                ..pre@.users[t]
            };
            assert(self.users@[t]@.tokens =~= push_token(pre@.users[t].tokens, token@));
            assert(self@.users =~= pre@.users.update(t, u2));
            lemma_wf_update_user(pre@, t, u2);
        }
        Ok(token)
    }
}

/// The index of `x` among `v`, compared as text.
pub(crate) fn find_str(v: &Vec<String>, x: &str) -> (r: Option<usize>)
    ensures
        match r {
            Some(j) => j < v@.len() && v.deep_view()[j as int] == x@,
            None => !v.deep_view().contains(x@),
        },
{
    let mut j: usize = 0;
    while j < v.len()
        invariant
            j <= v@.len(),
            forall|k: int| 0 <= k < j ==> v.deep_view()[k] != x@,
        decreases v@.len() - j,
    {
        if str_eq(v[j].as_str(), x) {
            proof {
                assert(v.deep_view()[j as int] == x@);
            }
            return Some(j);
        }
        j = j + 1;
    }
    proof {
        assert(!v.deep_view().contains(x@));
    }
    None
}

/// Whether `token` is one of `tokens`, compared as text.
fn token_in_set(tokens: &Vec<String>, token: &str) -> (r: bool)
    ensures
        r == tokens.deep_view().contains(token@),
{
    match find_str(tokens, token) {
        Some(j) => {
            proof {
                assert(tokens.deep_view().contains(token@));
            }
            true
        },
        None => false,
    }
}

/// Copies a list of texts.
fn clone_strings(v: &Vec<String>) -> (r: Vec<String>)
    ensures
        r.deep_view() == v.deep_view(),
{
    let mut r: Vec<String> = Vec::new();
    proof {
        assert(r.deep_view() =~= v.deep_view().take(0));
    }
    let mut i: usize = 0;
    while i < v.len()
        invariant
            i <= v@.len(),
            r.deep_view() == v.deep_view().take(i as int),
        decreases v@.len() - i,
    {
        let ghost pre = r.deep_view();
        r.push(v[i].clone());
        proof {
            assert(r.deep_view() =~= pre.push(v.deep_view()[i as int]));
        }
        i = i + 1;
        proof {
            assert(r.deep_view() =~= v.deep_view().take(i as int));
        }
    }
    proof {
        assert(r.deep_view() =~= v.deep_view());
    }
    r
}

/// In a duplicate-free sequence, `index_of` names the one position of a
/// present element.
pub proof fn lemma_distinct_index_of<A>(s: Seq<A>, x: A, i: int)
    requires
        distinct_seq(s),
        0 <= i < s.len(),
        s[i] == x,
    ensures
        s.index_of(x) == i,
        s.contains(x),
{
    assert(s.contains(x));
    let j = s.index_of(x);
    if j != i {
        if j < i {
            assert(s[j] != s[i]);
        } else {
            assert(s[i] != s[j]);
        }
    }
}

/// Removal keeps a sequence duplicate-free.
pub proof fn lemma_distinct_remove<A>(s: Seq<A>, i: int)
    requires
        distinct_seq(s),
        0 <= i < s.len(),
    ensures
        distinct_seq(s.remove(i)),
{
    s.remove_ensures(i);
    let t = s.remove(i);
    assert forall|p: int, q: int| 0 <= p < q < t.len() implies t[p] != t[q] by {
        let p0 = if p < i { p } else { p + 1 };
        let q0 = if q < i { q } else { q + 1 };
        assert(t[p] == s[p0]);
        assert(t[q] == s[q0]);
    }
}

/// A capability validates against a token set when some bearer in the set
/// derives it for this exact target.
pub open spec fn validates_stoken(
    tokens: Seq<Seq<char>>,
    st: Seq<char>,
    server_id: Seq<char>,
    domain: Seq<char>,
    port: u16,
) -> bool {
    exists|i: int|
        0 <= i < tokens.len() && stoken_of(#[trigger] tokens[i], server_id, domain, port) == st
}

impl RealmAuthServer {
    /// Whether the stored code for this user equals the given one; a missing
    /// code matches nothing.
    pub fn is_login_code_valid(&self, username: &str, login_code: u32) -> (r: Result<
        bool,
        ErrorCode,
    >)
        requires
            self@.wf(),
        ensures
            match r {
                Ok(b) => username_taken(self@.users, username@) && b == (self@.users[user_at(
                    self@.users,
                    username@,
                )].login_code == Some(login_code)),
                Err(e) => e == ErrorCode::InvalidUsername && !username_taken(
                    self@.users,
                    username@,
                ),
            },
    {
        match self.find_user(username) {
            Some(i) => {
                proof {
                    lemma_user_at(self@.users, username@, i as int);
                }
                match self.users[i].login_code {
                    Some(c) => Ok(c == login_code),
                    None => Ok(false),
                }
            },
            None => Err(ErrorCode::InvalidUsername),
        }
    }

    /// Clears any outstanding login code for this user.
    pub fn reset_login_code(&mut self, username: &str) -> (r: Result<(), ErrorCode>)
        requires
            old(self)@.wf(),
        ensures
            final(self)@.wf(),
            final(self)@.domain == old(self)@.domain,
            match r {
                Ok(_) => ({
                    let t = user_at(old(self)@.users, username@);
                    &&& username_taken(old(self)@.users, username@)
                    &&& final(self)@ == AuthServerView {
                        users: old(self)@.users.update(
                            t,
                            AuthUserView { login_code: None, ..old(self)@.users[t] },
                        ),
                        ..old(self)@
                    }
                }),
                Err(e) => e == ErrorCode::InvalidUsername && !username_taken(
                    old(self)@.users,
                    username@,
                ) && final(self)@ == old(self)@,
            },
    {
        match self.find_user(username) {
            Some(i) => {
                proof {
                    lemma_user_at(self@.users, username@, i as int);
                }
                self.users[i].login_code = None;
                proof {
                    let t = i as int;
                    let u2 = AuthUserView { login_code: None, ..old(self)@.users[t] };
                    assert(self@.users =~= old(self)@.users.update(t, u2));
                    lemma_wf_update_user(old(self)@, t, u2);
                }
                Ok(())
            },
            None => Err(ErrorCode::InvalidUsername),
        }
    }

    /// Capability validation at the Auth Service: whether any of the user's
    /// active bearers derives this server-scoped token for this exact target.
    pub fn server_token_validation(
        &self,
        server_token: &str,
        username: &str,
        server_id: &str,
        domain: &str,
        tarpc_port: u16,
    ) -> (r: bool)
        requires
            self@.wf(),
        ensures
            r == (username_taken(self@.users, username@) && validates_stoken(
                self@.users[user_at(self@.users, username@)].tokens,
                server_token@,
                server_id@,
                domain@,
                tarpc_port,
            )),
    {
        let idx = match self.find_user(username) {
            Some(i) => i,
            None => {
                return false;
            },
        };
        proof {
            lemma_user_at(self@.users, username@, idx as int);
        }
        let n = self.users[idx].tokens.len();
        let mut j: usize = 0;
        while j < n
            invariant
                idx < self.users@.len(),
                username_taken(self@.users, username@),
                user_at(self@.users, username@) == idx as int,
                n == self@.users[idx as int].tokens.len(),
                j <= n,
                forall|k: int|
                    0 <= k < j ==> stoken_of(
                        #[trigger] self@.users[idx as int].tokens[k],
                        server_id@,
                        domain@,
                        tarpc_port,
                    ) != server_token@,
            decreases n - j,
        {
            let cand = stoken(self.users[idx].tokens[j].as_str(), server_id, domain, tarpc_port);
            if str_eq(cand.as_str(), server_token) {
                proof {
                    assert(stoken_of(
                        self@.users[idx as int].tokens[j as int],
                        server_id@,
                        domain@,
                        tarpc_port,
                    ) == server_token@);
                    assert(validates_stoken(
                        self@.users[idx as int].tokens,
                        server_token@,
                        server_id@,
                        domain@,
                        tarpc_port,
                    ));
                }
                return true;
            }
            j = j + 1;
        }
        false
    }

    /// Email change, first half: authorize the bearer, refuse a taken email,
    /// record the pending address and mint a code, which is emailed to the
    /// new address.
    pub fn change_email_flow(&mut self, username: &str, new_email: String, token: &str) -> (r:
        Result<u32, ErrorCode>)
        requires
            old(self)@.wf(),
        ensures
            final(self)@.wf(),
            final(self)@.domain == old(self)@.domain,
            match r {
                Ok(code) => ({
                    let t = user_at(old(self)@.users, username@);
                    &&& username_taken(old(self)@.users, username@)
                    &&& old(self)@.users[t].tokens.contains(token@)
                    &&& !email_taken(old(self)@.users, new_email@)
                    &&& 100000 <= code <= 999999
                    &&& final(self)@ == AuthServerView {
                        users: old(self)@.users.update(
                            t,
                            AuthUserView {
                                pending_new_email: Some(new_email@),
                                login_code: Some(code),
                                ..old(self)@.users[t]
                            },
                        ),
                        ..old(self)@
                    }
                }),
                Err(e) => final(self)@ == old(self)@ && (if !username_taken(
                    old(self)@.users,
                    username@,
                ) {
                    e == ErrorCode::InvalidUsername
                } else if !old(self)@.users[user_at(old(self)@.users, username@)].tokens.contains(
                    token@,
                ) {
                    e == ErrorCode::Unauthorized
                } else {
                    e == ErrorCode::EmailTaken && email_taken(old(self)@.users, new_email@)
                }),
            },
    {
        match self.is_authorized(username, token) {
            Ok(true) => {},
            Ok(false) => {
                return Err(ErrorCode::Unauthorized);
            },
            Err(e) => {
                return Err(e);
            },
        }
        if self.is_email_taken(new_email.as_str()) {
            return Err(ErrorCode::EmailTaken);
        }
        let idx = match self.find_user(username) {
            Some(i) => i,
            None => {
                return Err(ErrorCode::InvalidUsername);
            },
        };
        proof {
            lemma_user_at(self@.users, username@, idx as int);
        }
        let code = gen_login_code();
        let ghost new_email_view = new_email@;
        self.users[idx].pending_new_email = Some(new_email);
        self.users[idx].login_code = Some(code);
        proof {
            let t = idx as int;
            let u2 = AuthUserView {
                pending_new_email: Some(new_email_view),
                login_code: Some(code),
                ..old(self)@.users[t]
            };
            assert(self@.users =~= old(self)@.users.update(t, u2));
            lemma_wf_update_user(old(self)@, t, u2);
        }
        Ok(code)
    }

    /// Email change, second half: re-check vacancy, consume a matching code,
    /// and commit the new address.
    pub fn finish_change_email_flow(
        &mut self,
        username: &str,
        new_email: String,
        token: &str,
        login_code: u32,
    ) -> (r: Result<(), ErrorCode>)
        requires
            old(self)@.wf(),
        ensures
            final(self)@.wf(),
            final(self)@.domain == old(self)@.domain,
            match r {
                Ok(_) => ({
                    let t = user_at(old(self)@.users, username@);
                    &&& username_taken(old(self)@.users, username@)
                    &&& old(self)@.users[t].tokens.contains(token@)
                    &&& !email_taken(old(self)@.users, new_email@)
                    &&& old(self)@.users[t].login_code == Some(login_code)
                    &&& final(self)@ == AuthServerView {
                        users: old(self)@.users.update(
                            t,
                            AuthUserView {
                                email: new_email@,
                                pending_new_email: None,
                                login_code: None,
                                ..old(self)@.users[t]
                            },
                        ),
                        ..old(self)@
                    }
                }),
                Err(e) => final(self)@ == old(self)@ && (if !username_taken(
                    old(self)@.users,
                    username@,
                ) {
                    e == ErrorCode::InvalidUsername
                } else if !old(self)@.users[user_at(old(self)@.users, username@)].tokens.contains(
                    token@,
                ) {
                    e == ErrorCode::Unauthorized
                } else if email_taken(old(self)@.users, new_email@) {
                    e == ErrorCode::EmailTaken
                } else {
                    e == ErrorCode::InvalidLoginCode && old(self)@.users[user_at(
                        old(self)@.users,
                        username@,
                    )].login_code != Some(login_code)
                }),
            },
    {
        match self.is_authorized(username, token) {
            Ok(true) => {},
            Ok(false) => {
                return Err(ErrorCode::Unauthorized);
            },
            Err(e) => {
                return Err(e);
            },
        }
        if self.is_email_taken(new_email.as_str()) {
            return Err(ErrorCode::EmailTaken);
        }
        let idx = match self.find_user(username) {
            Some(i) => i,
            None => {
                return Err(ErrorCode::InvalidUsername);
            },
        };
        proof {
            lemma_user_at(self@.users, username@, idx as int);
        }
        let matches_code = match self.users[idx].login_code {
            Some(c) => c == login_code,
            None => false,
        };
        if !matches_code {
            return Err(ErrorCode::InvalidLoginCode);
        }
        let ghost new_email_view = new_email@;
        self.users[idx].pending_new_email = None;
        self.users[idx].email = new_email;
        self.users[idx].login_code = None;
        proof {
            let t = idx as int;
            let u2 = AuthUserView {
                email: new_email_view,
                pending_new_email: None,
                login_code: None,
                ..old(self)@.users[t]
            };
            assert(self@.users =~= old(self)@.users.update(t, u2));
            lemma_wf_update_user(old(self)@, t, u2);
        }
        Ok(())
    }

    /// Replaces the user's avatar; bearer required.
    pub fn change_avatar(&mut self, username: &str, token: &str, new_avatar: String) -> (r: Result<
        (),
        ErrorCode,
    >)
        requires
            old(self)@.wf(),
        ensures
            final(self)@.wf(),
            final(self)@.domain == old(self)@.domain,
            match r {
                Ok(_) => ({
                    let t = user_at(old(self)@.users, username@);
                    &&& username_taken(old(self)@.users, username@)
                    &&& old(self)@.users[t].tokens.contains(token@)
                    &&& final(self)@ == AuthServerView {
                        users: old(self)@.users.update(
                            t,
                            AuthUserView { avatar: new_avatar@, ..old(self)@.users[t] },
                        ),
                        ..old(self)@
                    }
                }),
                Err(e) => final(self)@ == old(self)@ && (if !username_taken(
                    old(self)@.users,
                    username@,
                ) {
                    e == ErrorCode::InvalidUsername
                } else {
                    e == ErrorCode::Unauthorized && !old(self)@.users[user_at(
                        old(self)@.users,
                        username@,
                    )].tokens.contains(token@)
                }),
            },
    {
        match self.is_authorized(username, token) {
            Ok(true) => {},
            Ok(false) => {
                return Err(ErrorCode::Unauthorized);
            },
            Err(e) => {
                return Err(e);
            },
        }
        let idx = match self.find_user(username) {
            Some(i) => i,
            None => {
                return Err(ErrorCode::InvalidUsername);
            },
        };
        proof {
            lemma_user_at(self@.users, username@, idx as int);
        }
        let ghost avatar_view = new_avatar@;
        self.users[idx].avatar = new_avatar;
        proof {
            let t = idx as int;
            let u2 = AuthUserView { avatar: avatar_view, ..old(self)@.users[t] };
            assert(self@.users =~= old(self)@.users.update(t, u2));
            lemma_wf_update_user(old(self)@, t, u2);
        }
        Ok(())
    }

    /// The user's whole record, with any outstanding login code withheld;
    /// bearer required.
    pub fn get_all_data(&self, username: &str, token: &str) -> (r: Result<AuthUser, ErrorCode>)
        requires
            self@.wf(),
        ensures
            match r {
                Ok(u) => ({
                    let t = user_at(self@.users, username@);
                    &&& username_taken(self@.users, username@)
                    &&& self@.users[t].tokens.contains(token@)
                    &&& u@ == AuthUserView { login_code: None, ..self@.users[t] }
                }),
                Err(e) => if !username_taken(self@.users, username@) {
                    e == ErrorCode::InvalidUsername
                } else {
                    e == ErrorCode::Unauthorized && !self@.users[user_at(
                        self@.users,
                        username@,
                    )].tokens.contains(token@)
                },
            },
    {
        match self.is_authorized(username, token) {
            Ok(true) => {},
            Ok(false) => {
                return Err(ErrorCode::Unauthorized);
            },
            Err(e) => {
                return Err(e);
            },
        }
        let idx = match self.find_user(username) {
            Some(i) => i,
            None => {
                return Err(ErrorCode::InvalidUsername);
            },
        };
        proof {
            lemma_user_at(self@.users, username@, idx as int);
        }
        let rec = &self.users[idx];
        let snapshot = AuthUser {
            id: rec.id,
            username: rec.username.clone(),
            email: rec.email.clone(),
            pending_new_email: match &rec.pending_new_email {
                Some(e) => Some(e.clone()),
                None => None,
            },
            avatar: rec.avatar.clone(),
            login_code: None,
            tokens: clone_strings(&rec.tokens),
            servers: clone_strings(&rec.servers),
        };
        proof {
            assert(snapshot@ =~= AuthUserView { login_code: None, ..self@.users[idx as int] });
        }
        Ok(snapshot)
    }

    /// Removes one bearer token from the active set; a token that was not
    /// present is refused.
    pub fn sign_out(&mut self, username: &str, token: &str) -> (r: Result<(), ErrorCode>)
        requires
            old(self)@.wf(),
        ensures
            final(self)@.wf(),
            final(self)@.domain == old(self)@.domain,
            match r {
                Ok(_) => ({
                    let t = user_at(old(self)@.users, username@);
                    let toks = old(self)@.users[t].tokens;
                    &&& username_taken(old(self)@.users, username@)
                    &&& toks.contains(token@)
                    &&& final(self)@ == AuthServerView {
                        users: old(self)@.users.update(
                            t,
                            AuthUserView {
                                tokens: toks.remove(toks.index_of(token@)),
                                ..old(self)@.users[t]
                            },
                        ),
                        ..old(self)@
                    }
                }),
                Err(e) => final(self)@ == old(self)@ && (if !username_taken(
                    old(self)@.users,
                    username@,
                ) {
                    e == ErrorCode::InvalidUsername
                } else {
                    e == ErrorCode::Unauthorized && !old(self)@.users[user_at(
                        old(self)@.users,
                        username@,
                    )].tokens.contains(token@)
                }),
            },
    {
        let idx = match self.find_user(username) {
            Some(i) => i,
            None => {
                return Err(ErrorCode::InvalidUsername);
            },
        };
        proof {
            lemma_user_at(self@.users, username@, idx as int);
        }
        let j = match find_str(&self.users[idx].tokens, token) {
            Some(j) => j,
            None => {
                return Err(ErrorCode::Unauthorized);
            },
        };
        proof {
            lemma_distinct_index_of(self@.users[idx as int].tokens, token@, j as int);
        }
        let _removed = self.users[idx].tokens.remove(j);
        proof {
            let t = idx as int;
            let toks = old(self)@.users[t].tokens;
            lemma_distinct_remove(toks, j as int);
            let u2 = AuthUserView { tokens: toks.remove(j as int), ..old(self)@.users[t] };
            assert(self.users@[t]@.tokens =~= toks.remove(j as int));
            assert(self@.users =~= old(self)@.users.update(t, u2));
            lemma_wf_update_user(old(self)@, t, u2);
        }
        Ok(())
    }

    /// Account deletion, first half: authorize the bearer and mint a code,
    /// handing back whom to email and what.
    pub fn delete_account_flow(&mut self, username: &str, token: &str) -> (r: Result<
        MailTask,
        ErrorCode,
    >)
        requires
            old(self)@.wf(),
        ensures
            final(self)@.wf(),
            final(self)@.domain == old(self)@.domain,
            match r {
                Ok(task) => ({
                    let t = user_at(old(self)@.users, username@);
                    &&& username_taken(old(self)@.users, username@)
                    &&& old(self)@.users[t].tokens.contains(token@)
                    &&& 100000 <= task.code <= 999999
                    &&& task.username@ == old(self)@.users[t].username
                    &&& task.email@ == old(self)@.users[t].email
                    &&& final(self)@ == AuthServerView {
                        users: old(self)@.users.update(
                            t,
                            AuthUserView { login_code: Some(task.code), ..old(self)@.users[t] },
                        ),
                        ..old(self)@
                    }
                }),
                Err(e) => final(self)@ == old(self)@ && (if !username_taken(
                    old(self)@.users,
                    username@,
                ) {
                    e == ErrorCode::InvalidUsername
                } else {
                    e == ErrorCode::Unauthorized && !old(self)@.users[user_at(
                        old(self)@.users,
                        username@,
                    )].tokens.contains(token@)
                }),
            },
    {
        match self.is_authorized(username, token) {
            Ok(true) => {},
            Ok(false) => {
                return Err(ErrorCode::Unauthorized);
            },
            Err(e) => {
                return Err(e);
            },
        }
        let idx = match self.find_user(username) {
            Some(i) => i,
            None => {
                return Err(ErrorCode::InvalidUsername);
            },
        };
        proof {
            lemma_user_at(self@.users, username@, idx as int);
        }
        let code = gen_login_code();
        let user_username = self.users[idx].username.clone();
        let user_email = self.users[idx].email.clone();
        self.users[idx].login_code = Some(code);
        proof {
            let t = idx as int;
            let u2 = AuthUserView { login_code: Some(code), ..old(self)@.users[t] };
            assert(self@.users =~= old(self)@.users.update(t, u2));
            lemma_wf_update_user(old(self)@, t, u2);
        }
        Ok(MailTask { username: user_username, email: user_email, code })
    }

    /// Account deletion, second half: consume a matching code and remove the
    /// user entirely.
    pub fn finish_delete_account_flow(&mut self, username: &str, token: &str, login_code: u32) -> (r:
        Result<(), ErrorCode>)
        requires
            old(self)@.wf(),
        ensures
            final(self)@.wf(),
            final(self)@.domain == old(self)@.domain,
            match r {
                Ok(_) => ({
                    let t = user_at(old(self)@.users, username@);
                    &&& username_taken(old(self)@.users, username@)
                    &&& old(self)@.users[t].tokens.contains(token@)
                    &&& old(self)@.users[t].login_code == Some(login_code)
                    &&& final(self)@ == AuthServerView {
                        users: old(self)@.users.remove(t),
                        ..old(self)@
                    }
                }),
                Err(e) => final(self)@ == old(self)@ && (if !username_taken(
                    old(self)@.users,
                    username@,
                ) {
                    e == ErrorCode::InvalidUsername
                } else if !old(self)@.users[user_at(old(self)@.users, username@)].tokens.contains(
                    token@,
                ) {
                    e == ErrorCode::Unauthorized
                } else {
                    e == ErrorCode::InvalidLoginCode && old(self)@.users[user_at(
                        old(self)@.users,
                        username@,
                    )].login_code != Some(login_code)
                }),
            },
    {
        match self.is_authorized(username, token) {
            Ok(true) => {},
            Ok(false) => {
                return Err(ErrorCode::Unauthorized);
            },
            Err(e) => {
                return Err(e);
            },
        }
        let idx = match self.find_user(username) {
            Some(i) => i,
            None => {
                return Err(ErrorCode::InvalidUsername);
            },
        };
        proof {
            lemma_user_at(self@.users, username@, idx as int);
        }
        let matches_code = match self.users[idx].login_code {
            Some(c) => c == login_code,
            None => false,
        };
        if !matches_code {
            return Err(ErrorCode::InvalidLoginCode);
        }
        let _removed = self.users.remove(idx);
        proof {
            let t = idx as int;
            assert(self@.users =~= old(self)@.users.remove(t));
            lemma_wf_remove_user(old(self)@, t);
        }
        Ok(())
    }

    /// Records a joined chat server (a `domain:port` entry); a duplicate is
    /// refused.
    pub fn add_server(&mut self, username: &str, token: &str, server: String) -> (r: Result<
        (),
        ErrorCode,
    >)
        requires
            old(self)@.wf(),
        ensures
            final(self)@.wf(),
            final(self)@.domain == old(self)@.domain,
            match r {
                Ok(_) => ({
                    let t = user_at(old(self)@.users, username@);
                    &&& username_taken(old(self)@.users, username@)
                    &&& old(self)@.users[t].tokens.contains(token@)
                    &&& !old(self)@.users[t].servers.contains(server@)
                    &&& final(self)@ == AuthServerView {
                        users: old(self)@.users.update(
                            t,
                            AuthUserView {
                                servers: old(self)@.users[t].servers.push(server@),
                                ..old(self)@.users[t]
                            },
                        ),
                        ..old(self)@
                    }
                }),
                Err(e) => final(self)@ == old(self)@ && (if !username_taken(
                    old(self)@.users,
                    username@,
                ) {
                    e == ErrorCode::InvalidUsername
                } else if !old(self)@.users[user_at(old(self)@.users, username@)].tokens.contains(
                    token@,
                ) {
                    e == ErrorCode::Unauthorized
                } else {
                    e == ErrorCode::AlreadyJoinedServer && old(self)@.users[user_at(
                        old(self)@.users,
                        username@,
                    )].servers.contains(server@)
                }),
            },
    {
        match self.is_authorized(username, token) {
            Ok(true) => {},
            Ok(false) => {
                return Err(ErrorCode::Unauthorized);
            },
            Err(e) => {
                return Err(e);
            },
        }
        let idx = match self.find_user(username) {
            Some(i) => i,
            None => {
                return Err(ErrorCode::InvalidUsername);
            },
        };
        proof {
            lemma_user_at(self@.users, username@, idx as int);
        }
        match find_str(&self.users[idx].servers, server.as_str()) {
            Some(_) => {
                proof {
                    assert(old(self)@.users[idx as int].servers.contains(server@));
                }
                return Err(ErrorCode::AlreadyJoinedServer);
            },
            None => {},
        }
        let ghost server_view = server@;
        self.users[idx].servers.push(server);
        proof {
            let t = idx as int;
            let u2 = AuthUserView {
                servers: old(self)@.users[t].servers.push(server_view),
                ..old(self)@.users[t]
            };
            assert(self.users@[t]@.servers =~= old(self)@.users[t].servers.push(server_view));
            assert(self@.users =~= old(self)@.users.update(t, u2));
            lemma_wf_update_user(old(self)@, t, u2);
        }
        Ok(())
    }

    /// Forgets a joined chat server; one that was never recorded is refused.
    pub fn remove_server(&mut self, username: &str, token: &str, server: &str) -> (r: Result<
        (),
        ErrorCode,
    >)
        requires
            old(self)@.wf(),
        ensures
            final(self)@.wf(),
            final(self)@.domain == old(self)@.domain,
            match r {
                Ok(_) => ({
                    let t = user_at(old(self)@.users, username@);
                    let servers = old(self)@.users[t].servers;
                    &&& username_taken(old(self)@.users, username@)
                    &&& old(self)@.users[t].tokens.contains(token@)
                    &&& servers.contains(server@)
                    &&& final(self)@ == AuthServerView {
                        users: old(self)@.users.update(
                            t,
                            AuthUserView {
                                servers: servers.remove(servers.index_of(server@)),
                                ..old(self)@.users[t]
                            },
                        ),
                        ..old(self)@
                    }
                }),
                Err(e) => final(self)@ == old(self)@ && (if !username_taken(
                    old(self)@.users,
                    username@,
                ) {
                    e == ErrorCode::InvalidUsername
                } else if !old(self)@.users[user_at(old(self)@.users, username@)].tokens.contains(
                    token@,
                ) {
                    e == ErrorCode::Unauthorized
                } else {
                    e == ErrorCode::NotInServer && !old(self)@.users[user_at(
                        old(self)@.users,
                        username@,
                    )].servers.contains(server@)
                }),
            },
    {
        match self.is_authorized(username, token) {
            Ok(true) => {},
            Ok(false) => {
                return Err(ErrorCode::Unauthorized);
            },
            Err(e) => {
                return Err(e);
            },
        }
        let idx = match self.find_user(username) {
            Some(i) => i,
            None => {
                return Err(ErrorCode::InvalidUsername);
            },
        };
        proof {
            lemma_user_at(self@.users, username@, idx as int);
        }
        let j = match find_str(&self.users[idx].servers, server) {
            Some(j) => j,
            None => {
                return Err(ErrorCode::NotInServer);
            },
        };
        proof {
            lemma_distinct_index_of(self@.users[idx as int].servers, server@, j as int);
        }
        let _removed = self.users[idx].servers.remove(j);
        proof {
            let t = idx as int;
            let servers = old(self)@.users[t].servers;
            lemma_distinct_remove(servers, j as int);
            let u2 = AuthUserView { servers: servers.remove(j as int), ..old(self)@.users[t] };
            assert(self.users@[t]@.servers =~= servers.remove(j as int));
            assert(self@.users =~= old(self)@.users.update(t, u2));
            lemma_wf_update_user(old(self)@, t, u2);
        }
        Ok(())
    }

    /// The user's joined-server list, in join order; bearer required.
    pub fn get_joined_servers(&self, username: &str, token: &str) -> (r: Result<
        Vec<String>,
        ErrorCode,
    >)
        requires
            self@.wf(),
        ensures
            match r {
                Ok(servers) => ({
                    let t = user_at(self@.users, username@);
                    &&& username_taken(self@.users, username@)
                    &&& self@.users[t].tokens.contains(token@)
                    &&& servers.deep_view() == self@.users[t].servers
                }),
                Err(e) => if !username_taken(self@.users, username@) {
                    e == ErrorCode::InvalidUsername
                } else {
                    e == ErrorCode::Unauthorized && !self@.users[user_at(
                        self@.users,
                        username@,
                    )].tokens.contains(token@)
                },
            },
    {
        match self.is_authorized(username, token) {
            Ok(true) => {},
            Ok(false) => {
                return Err(ErrorCode::Unauthorized);
            },
            Err(e) => {
                return Err(e);
            },
        }
        let idx = match self.find_user(username) {
            Some(i) => i,
            None => {
                return Err(ErrorCode::InvalidUsername);
            },
        };
        proof {
            lemma_user_at(self@.users, username@, idx as int);
        }
        Ok(clone_strings(&self.users[idx].servers))
    }

    /// The avatar stored for a username; anyone may ask.
    pub fn get_avatar_for_user(&self, username: &str) -> (r: Result<String, ErrorCode>)
        requires
            self@.wf(),
        ensures
            match r {
                Ok(avatar) => username_taken(self@.users, username@) && avatar@ == self@.users[user_at(
                    self@.users,
                    username@,
                )].avatar,
                Err(e) => e == ErrorCode::InvalidUsername && !username_taken(
                    self@.users,
                    username@,
                ),
            },
    {
        match self.find_user(username) {
            Some(i) => {
                proof {
                    lemma_user_at(self@.users, username@, i as int);
                }
                Ok(self.users[i].avatar.clone())
            },
            None => Err(ErrorCode::InvalidUsername),
        }
    }
}

} // verus!
