//! Checking the user name and password of a request.
use vstd::prelude::*;

verus! {

/// A way of checking credentials, chosen once at startup.
pub trait Authenticator {
    /// Whether the pair is accepted.
    spec fn accepts(&self, username: Seq<char>, password: Seq<char>) -> bool;

    fn authenticate(&self, username: &str, password: &str) -> (r: bool)
        ensures
            r == self.accepts(username@, password@),
    ;
}

/// A line without the `\r` of a `\r\n` line end.
pub open spec fn without_cr(line: Seq<char>) -> Seq<char> {
    if line.len() > 0 && line.last() == '\r' {
        line.drop_last()
    } else {
        line
    }
}

/// The lines of a text, as `str::lines` splits it: at each `\n`, dropping
/// a `\r` just before it; a final line end adds no empty line.
pub open spec fn lines_of(s: Seq<char>) -> Seq<Seq<char>>
    decreases s.len(),
{
    if s.len() == 0 {
        Seq::empty()
    } else {
        match index_of(s, '\n') {
            Some(k) => if 0 <= k < s.len() {
                seq![without_cr(s.subrange(0, k))] + lines_of(s.subrange(k + 1, s.len() as int))
            } else {
                Seq::empty()
            },
            None => seq![s],
        }
    }
}

/// Relies on `str::lines`: the text split at `\n` or `\r\n` line ends, the
/// last line end optional.
#[verifier::external_body]
fn text_lines(s: &str) -> (r: Vec<String>)
    ensures
        r@.map_values(|l: String| l@) == lines_of(s@),
{
    s.lines().map(|l| l.to_string()).collect()
}

/// The position of the first `c` in `s`.
pub open spec fn index_of(s: Seq<char>, c: char) -> Option<int>
    decreases s.len(),
{
    if s.len() == 0 {
        None
    } else if s[0] == c {
        Some(0)
    } else {
        match index_of(s.drop_first(), c) {
            Some(k) => Some(k + 1),
            None => None,
        }
    }
}

/// The user and password that a line of a password file gives: none for a
/// comment (a line that starts with `#`) or a line without a space, else
/// what stands before and after the first space.
pub open spec fn credential_of(line: Seq<char>) -> Option<(Seq<char>, Seq<char>)> {
    if line.len() > 0 && line[0] == '#' {
        None
    } else {
        split_once(line, ' ')
    }
}

/// What stands before and after the first `c` in `s`.
pub open spec fn split_once(s: Seq<char>, c: char) -> Option<(Seq<char>, Seq<char>)> {
    match index_of(s, c) {
        Some(k) => Some((s.subrange(0, k), s.subrange(k + 1, s.len() as int))),
        None => None,
    }
}

/// The credentials of a password file's lines, in file order.
pub open spec fn credentials_of(lines: Seq<Seq<char>>) -> Seq<(Seq<char>, Seq<char>)>
    decreases lines.len(),
{
    if lines.len() == 0 {
        Seq::empty()
    } else {
        let rest = credentials_of(lines.drop_last());
        match credential_of(lines.last()) {
            Some(c) => rest.push(c),
            None => rest,
        }
    }
}

/// The password of `user`: that of its last line.
pub open spec fn password_for(creds: Seq<(Seq<char>, Seq<char>)>, user: Seq<char>) -> Option<
    Seq<char>,
>
    decreases creds.len(),
{
    if creds.len() == 0 {
        None
    } else if creds.last().0 == user {
        Some(creds.last().1)
    } else {
        password_for(creds.drop_last(), user)
    }
}

proof fn lemma_index_of(s: Seq<char>, c: char, i: int)
    requires
        0 <= i <= s.len(),
        forall|j: int| 0 <= j < i ==> s[j] != c,
        i < s.len() ==> s[i] == c,
    ensures
        index_of(s, c) == (if i < s.len() {
            Some(i)
        } else {
            None::<int>
        }),
    decreases i,
{
    if i > 0 {
        let t = s.drop_first();
        assert forall|j: int| 0 <= j < i - 1 implies t[j] != c by {
            assert(t[j] == s[j + 1]);
        }
        if i < s.len() {
            assert(t[i - 1] == s[i]);
        }
        lemma_index_of(t, c, i - 1);
    }
}

/// What stands before and after the first `c` in `s`.
pub fn split_once_at(s: &str, c: char) -> (r: Option<(String, String)>)
    ensures
        r is Some <==> split_once(s@, c) is Some,
        r is Some ==> r->Some_0.0@ == split_once(s@, c)->Some_0.0 && r->Some_0.1@ == split_once(
            s@,
            c,
        )->Some_0.1,
{
    let n = s.unicode_len();
    let mut i: usize = 0;
    while i < n && s.get_char(i) != c
        invariant
            n == s@.len(),
            i <= n,
            forall|j: int| 0 <= j < i ==> s@[j] != c,
        decreases n - i,
    {
        i = i + 1;
    }
    proof {
        lemma_index_of(s@, c, i as int);
    }
    if i == n {
        None
    } else {
        let before = String::from_str(s.substring_char(0, i));
        let after = String::from_str(s.substring_char(i + 1, n));
        Some((before, after))
    }
}

/// The credential that one line gives.
fn parse_credential(line: &str) -> (r: Option<(String, String)>)
    ensures
        r is Some <==> credential_of(line@) is Some,
        r is Some ==> r->Some_0.0@ == credential_of(line@)->Some_0.0 && r->Some_0.1@
            == credential_of(line@)->Some_0.1,
{
    let n = line.unicode_len();
    if n > 0 && line.get_char(0) == '#' {
        return None;
    }
    split_once_at(line, ' ')
}

/// Users and passwords read from a file of `user password` lines.
#[derive(Debug, Clone)]
pub struct PasswdFileAuthenticator {
    users: Vec<(String, String)>,
}

impl PasswdFileAuthenticator {
    /// The credentials held, in file order.
    pub closed spec fn credentials(&self) -> Seq<(Seq<char>, Seq<char>)> {
        self.users@.map_values(|u: (String, String)| (u.0@, u.1@))
    }

    /// Reads the content of a password file: each line that is no comment
    /// (`#` first) and holds a space gives a user (before the first space)
    /// and a password (after it). A user given twice keeps the last one.
    pub fn from_content(content: &str) -> (r: PasswdFileAuthenticator)
        ensures
            r.credentials() == credentials_of(lines_of(content@)),
    {
        let lines = text_lines(content);
        Self::from_lines(&lines)
    }

    /// As `from_content`, from the file's lines.
    pub fn from_lines(lines: &Vec<String>) -> (r: PasswdFileAuthenticator)
        ensures
            r.credentials() == credentials_of(lines@.map_values(|l: String| l@)),
    {
        let ghost ls = lines@.map_values(|l: String| l@);
        let mut users: Vec<(String, String)> = Vec::new();
        let mut i: usize = 0;
        while i < lines.len()
            invariant
                i <= lines@.len(),
                ls == lines@.map_values(|l: String| l@),
                users@.map_values(|u: (String, String)| (u.0@, u.1@)) == credentials_of(
                    ls.subrange(0, i as int),
                ),
            decreases lines.len() - i,
        {
            let ghost before = users@;
            assert(ls.subrange(0, i + 1).drop_last() =~= ls.subrange(0, i as int));
            assert(ls.subrange(0, i + 1).last() == lines@[i as int]@);
            match parse_credential(lines[i].as_str()) {
                Some(c) => {
                    users.push(c);
                    assert(users@.map_values(|u: (String, String)| (u.0@, u.1@)) =~= before.map_values(
                        |u: (String, String)| (u.0@, u.1@),
                    ).push((c.0@, c.1@)));
                },
                None => {},
            }
            i = i + 1;
        }
        assert(ls.subrange(0, lines@.len() as int) =~= ls);
        PasswdFileAuthenticator { users }
    }
}

impl Authenticator for PasswdFileAuthenticator {
    open spec fn accepts(&self, username: Seq<char>, password: Seq<char>) -> bool {
        password_for(self.credentials(), username) == Some(password)
    }

    /// Accepts when the user's last password in the file is `password`.
    fn authenticate(&self, username: &str, password: &str) -> (r: bool) {
        let user = String::from_str(username);
        let pass = String::from_str(password);
        let ghost creds = self.credentials();
        let mut i: usize = self.users.len();
        assert(creds.subrange(0, i as int) =~= creds);
        while i > 0
            invariant
                i <= self.users@.len(),
                creds == self.credentials(),
                user@ == username@,
                pass@ == password@,
                password_for(creds, username@) == password_for(
                    creds.subrange(0, i as int),
                    username@,
                ),
            decreases i,
        {
            let ghost sub = creds.subrange(0, i as int);
            assert(sub.last() == (self.users@[i - 1].0@, self.users@[i - 1].1@));
            if self.users[i - 1].0 == user {
                return self.users[i - 1].1 == pass;
            }
            assert(sub.drop_last() =~= creds.subrange(0, i - 1));
            i = i - 1;
        }
        false
    }
}

/// Credentials checked by a PAM service of the operating system.
#[derive(Debug, Clone)]
pub struct PamAuthenticator {
    pam_module: String,
}

impl PamAuthenticator {
    pub fn new(pam_module: String) -> (r: PamAuthenticator)
        ensures
            r.pam_module_spec() == pam_module@,
    {
        PamAuthenticator { pam_module }
    }

    pub closed spec fn pam_module_spec(&self) -> Seq<char> {
        self.pam_module@
    }

    /// The PAM service's name.
    pub fn pam_module(&self) -> (r: &String)
        ensures
            r@ == self.pam_module_spec(),
    {
        &self.pam_module
    }
}

} // verus!
