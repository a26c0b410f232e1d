use vstd::prelude::*;

verus! {

/// The ANSI escape that switches the foreground to red.
pub open spec fn red_fg() -> Seq<char> {
    "\u{1b}[38;5;1m"@
}

/// The ANSI escape that switches the foreground to cyan.
pub open spec fn cyan_fg() -> Seq<char> {
    "\u{1b}[38;5;6m"@
}

/// The ANSI escape that resets the foreground color.
pub open spec fn reset_fg() -> Seq<char> {
    "\u{1b}[39m"@
}

/// The prompt line: the user part in red, then in cyan a colon and the
/// current directory, a section sign, and the color reset.
pub open spec fn prompt_of(name: Seq<char>, dir: Seq<char>) -> Seq<char> {
    red_fg() + name + cyan_fg() + ":"@ + dir + "\u{a7} "@ + reset_fg()
}

/// Relies on termion::color::Red::fg_str: the constant foreground escape
/// for color 1 of the 256-color palette.
#[verifier::external_body]
fn red_fg_code() -> (r: &'static str)
    ensures
        r@ == red_fg(),
{
    termion::color::Red.fg_str()
}

/// Relies on termion::color::Cyan::fg_str: the constant foreground escape
/// for color 6 of the 256-color palette.
#[verifier::external_body]
fn cyan_fg_code() -> (r: &'static str)
    ensures
        r@ == cyan_fg(),
{
    termion::color::Cyan.fg_str()
}

/// Relies on termion::color::Reset::fg_str: the constant escape that
/// restores the default foreground.
#[verifier::external_body]
fn reset_fg_code() -> (r: &'static str)
    ensures
        r@ == reset_fg(),
{
    termion::color::Reset.fg_str()
}

/// Relies on users::get_current_uid: the calling process's real user id.
/// The value depends on the environment, so nothing is stated of it.
#[verifier::external_body]
fn current_uid() -> (r: u32) {
    users::get_current_uid()
}

/// Relies on users::get_user_by_uid and users::User::name: the account
/// name registered for a user id, when one exists, rendered to text
/// lossily.  What comes back depends on the system's user database, so
/// nothing is stated of it.
#[verifier::external_body]
fn username_for_uid(uid: u32) -> (r: Option<String>) {
    match users::get_user_by_uid(uid) {
        Some(u) => Some(u.name().to_string_lossy().into_owned()),
        None => None,
    }
}

/// Relies on sysinfo::System::name: the operating system's name, when the
/// platform reports one.  The value depends on the machine, so nothing is
/// stated of it.
#[verifier::external_body]
fn system_name() -> (r: Option<String>) {
    sysinfo::System::name()
}

/// Relies on dirs::home_dir: the user's home directory, when the platform
/// knows one, rendered to text when the path is valid Unicode.  The value
/// depends on the environment, so nothing is stated of it.
#[verifier::external_body]
pub(crate) fn home_dir_string() -> (r: Option<String>) {
    match dirs::home_dir() {
        Some(p) => match p.to_str() {
            Some(s) => Some(s.to_string()),
            None => None,
        },
        None => None,
    }
}

/// Render the prompt for a user part and a current directory.
pub fn render_prompt(name: &str, dir: &str) -> (r: String)
    ensures
        r@ == prompt_of(name@, dir@),
{
    let mut out = String::new();
    out.append(red_fg_code());
    out.append(name);
    out.append(cyan_fg_code());
    out.append(":");
    out.append(dir);
    out.append("\u{a7} ");
    out.append(reset_fg_code());
    out
}

/// The user part of the prompt: an account name and a system name, joined
/// by an at sign between guillemets.
pub open spec fn user_display(user: Seq<char>, system: Seq<char>) -> Seq<char> {
    "\u{ab}"@ + user + "@"@ + system + "\u{bb}"@
}

/// Decorate the looked-up account and system names; a part the platform
/// did not report is rendered empty.
fn decorate_user(user: Option<String>, system: Option<String>) -> (r: String)
    ensures
        r@ == user_display(
            match user {
                Some(u) => u@,
                None => Seq::empty(),
            },
            match system {
                Some(s) => s@,
                None => Seq::empty(),
            },
        ),
{
    let mut username = String::new();
    username.append("\u{ab}");
    match &user {
        Some(u) => username.append(u.as_str()),
        None => (),
    }
    username.append("@");
    match &system {
        Some(s) => username.append(s.as_str()),
        None => (),
    }
    username.append("\u{bb}");
    proof {
        assert(username@ =~= user_display(
            match user {
                Some(u) => u@,
                None => Seq::empty(),
            },
            match system {
                Some(s) => s@,
                None => Seq::empty(),
            },
        ));
    }
    username
}

/// The display name of the shell's user, decorated from what the user
/// database and the platform report.
fn build_user_minishell() -> (r: String)
    ensures
        exists|u: Seq<char>, s: Seq<char>| r@ == #[trigger] user_display(u, s),
{
    let user = username_for_uid(current_uid());
    let system = system_name();
    decorate_user(user, system)
}

/// The shell's display context: the user part, the current directory as
/// shown, and the rendered prompt line derived from the two.
pub struct ShellName {
    pub name: String,
    pub current_dir: String,
    pub shell_name: String,
}

impl ShellName {
    /// The prompt always renders the stored user part and directory.
    pub open spec fn wf(self) -> bool {
        self.shell_name@ == prompt_of(self.name@, self.current_dir@)
    }

    /// Build the context for a current directory; the user part comes from
    /// the system's user database and OS name.
    pub fn new(current_dir: &str) -> (r: ShellName)
        ensures
            r.current_dir@ == current_dir@,
            r.wf(),
            exists|u: Seq<char>, s: Seq<char>| r.name@ == #[trigger] user_display(u, s),
    {
        let user = build_user_minishell();
        let shell_name = render_prompt(user.as_str(), current_dir);
        ShellName { name: user, current_dir: String::from_str(current_dir), shell_name }
    }

    /// Replace the home-directory prefix of `dir` with a tilde: exactly
    /// when `home` is a prefix of `dir`, the rest of `dir` follows the
    /// tilde; otherwise `dir` is kept whole.
    pub fn abbreviate_home(dir: &str, home: &str) -> (r: String)
        ensures
            home@.len() <= dir@.len() && dir@.subrange(0, home@.len() as int) == home@ ==> r@
                == "~"@ + dir@.skip(home@.len() as int),
            !(home@.len() <= dir@.len() && dir@.subrange(0, home@.len() as int) == home@) ==> r@
                == dir@,
    {
        let hn = home.unicode_len();
        let dn = dir.unicode_len();
        if hn <= dn && str_prefix(dir, home) {
            let mut out = String::new();
            out.append("~");
            out.append(dir.substring_char(hn, dn));
            proof {
                assert(out@ =~= "~"@ + dir@.skip(home@.len() as int));
            }
            out
        } else {
            String::from_str(dir)
        }
    }

    /// Show a new current directory: when it lies under the home
    /// directory, the home prefix is shortened to a tilde; the prompt is
    /// re-rendered either way, for the same user part.
    pub fn set_current_dir(&mut self, dir: &str)
        ensures
            final(self).name == old(self).name,
            final(self).wf(),
            final(self).current_dir@ == dir@ || (final(self).current_dir@.len() >= 1
                && final(self).current_dir@[0] == '~' && (exists|h: Seq<char>|
                dir@ == h + #[trigger] final(self).current_dir@.skip(1))),
    {
        let home = home_dir_string();
        let new_dir = match home {
            Some(h) => {
                let ghost hv = h@;
                let abbreviated = Self::abbreviate_home(dir, h.as_str());
                proof {
                    reveal_strlit("~");
                    if hv.len() <= dir@.len() && dir@.subrange(0, hv.len() as int) == hv {
                        assert(abbreviated@.skip(1) =~= dir@.skip(hv.len() as int));
                        assert(dir@ =~= hv + dir@.skip(hv.len() as int));
                    }
                }
                abbreviated
            },
            None => String::from_str(dir),
        };
        let prompt = render_prompt(self.name.as_str(), new_dir.as_str());
        self.current_dir = new_dir;
        self.shell_name = prompt;
    }
}

/// Does `s` start with `p`?  Callers have checked that `p` is no longer
/// than `s`.
fn str_prefix(s: &str, p: &str) -> (r: bool)
    requires
        p@.len() <= s@.len(),
    ensures
        r == (s@.subrange(0, p@.len() as int) == p@),
{
    let pn = p.unicode_len();
    let mut i: usize = 0;
    while i < pn
        invariant
            i <= pn,
            pn == p@.len(),
            pn <= s@.len(),
            forall|j: int| 0 <= j < i ==> s@[j] == p@[j],
        decreases pn - i,
    {
        if s.get_char(i) != p.get_char(i) {
            proof {
                assert(s@.subrange(0, p@.len() as int)[i as int] != p@[i as int]);
            }
            return false;
        }
        i += 1;
    }
    proof {
        assert(s@.subrange(0, p@.len() as int) =~= p@);
    }
    true
}

} // verus!
