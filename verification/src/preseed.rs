//! Overrides in a preseed configuration: user name, password and host name.

use crate::text::{
    contains, is_whitespace, lemma_line_len, lemma_line_len_is, lemma_replaced_nothing,
    lemma_trim_start, line_len, lines, occurs_at, replaced, split_lines, starts_with, strip_cr,
    to_chars, to_text, trim_start, trimmed_start,
};
use vstd::prelude::*;

verus! {

/// Start of the line that names the user.
pub const USERNAME_KEY: &'static str = "d-i passwd/username string";

/// Start of the line that holds the user's password.
pub const PASSWORD_KEY: &'static str = "d-i passwd/user-password password";

/// Start of the line that repeats the user's password.
pub const PASSWORD_AGAIN_KEY: &'static str = "d-i passwd/user-password-again password";

/// Start of the line that names the host.
pub const HOSTNAME_KEY: &'static str = "d-i netcfg/get_hostname string";

/// The settings that an override can change, in the order in which missing ones
/// are appended.
pub enum Setting {
    Username,
    Password,
    PasswordAgain,
    Hostname,
}

/// The override values that were asked for.
#[verifier::ext_equal]
pub ghost struct Overrides {
    pub username: Option<Seq<char>>,
    pub password: Option<Seq<char>>,
    pub hostname: Option<Seq<char>>,
}

/// The characters of a value, where there is one.
pub open spec fn value_view(value: Option<&str>) -> Option<Seq<char>> {
    match value {
        Some(v) => Some(v@),
        None => None,
    }
}

/// What a line that gives `setting` starts with.
pub open spec fn key(setting: Setting) -> Seq<char> {
    match setting {
        Setting::Username => USERNAME_KEY@,
        Setting::Password => PASSWORD_KEY@,
        Setting::PasswordAgain => PASSWORD_AGAIN_KEY@,
        Setting::Hostname => HOSTNAME_KEY@,
    }
}

/// The line that gives `setting` the value `value`.
pub open spec fn setting_line(setting: Setting, value: Seq<char>) -> Seq<char> {
    key(setting) + seq![' '] + value
}

impl Overrides {
    /// The value asked for, for `setting`. One password serves both of its lines.
    pub open spec fn value(self, setting: Setting) -> Option<Seq<char>> {
        match setting {
            Setting::Username => self.username,
            Setting::Password => self.password,
            Setting::PasswordAgain => self.password,
            Setting::Hostname => self.hostname,
        }
    }

    /// `line` gives a setting for which a value was asked.
    pub open spec fn claims(self, setting: Setting, line: Seq<char>) -> bool {
        self.value(setting) is Some && key(setting).is_prefix_of(trim_start(line))
    }

    /// The line that stands in the result for `setting`.
    pub open spec fn line(self, setting: Setting) -> Seq<char> {
        setting_line(setting, self.value(setting)->0)
    }

    /// What becomes of one line of the configuration.
    pub open spec fn rewritten(self, line: Seq<char>) -> Seq<char> {
        if self.claims(Setting::Username, line) {
            self.line(Setting::Username)
        } else if self.claims(Setting::Password, line) {
            self.line(Setting::Password)
        } else if self.claims(Setting::PasswordAgain, line) {
            self.line(Setting::PasswordAgain)
        } else if self.claims(Setting::Hostname, line) {
            self.line(Setting::Hostname)
        } else {
            line
        }
    }

    /// Some line of `ls` gives `setting`, for which a value was asked.
    pub open spec fn found(self, setting: Setting, ls: Seq<Seq<char>>) -> bool {
        exists|i: int| 0 <= i < ls.len() && self.claims(setting, #[trigger] ls[i])
    }

    /// The line to append for `setting`: one where a value was asked and no line gives it.
    pub open spec fn missing(self, setting: Setting, ls: Seq<Seq<char>>) -> Seq<Seq<char>> {
        if self.value(setting) is Some && !self.found(setting, ls) {
            seq![self.line(setting)]
        } else {
            Seq::empty()
        }
    }

    /// The lines of the configuration with the overrides applied.
    pub open spec fn applied(self, ls: Seq<Seq<char>>) -> Seq<Seq<char>> {
        ls.map_values(|l: Seq<char>| self.rewritten(l)) + self.missing(Setting::Username, ls)
            + self.missing(Setting::Password, ls) + self.missing(Setting::PasswordAgain, ls)
            + self.missing(Setting::Hostname, ls)
    }
}

/// The text that holds `ls`, each line ended by a newline.
pub open spec fn render(ls: Seq<Seq<char>>) -> Seq<char>
    decreases ls.len(),
{
    if ls.len() == 0 {
        Seq::empty()
    } else {
        render(ls.drop_last()) + ls.last().push('\n')
    }
}

/// The configuration `content` with overrides `o` applied.
pub open spec fn modified(content: Seq<char>, o: Overrides) -> Seq<char> {
    render(o.applied(lines(content)))
}

/// No text starts with two different keys.
pub proof fn lemma_keys_exclude(a: Setting, b: Setting, s: Seq<char>)
    requires
        key(a).is_prefix_of(s),
        key(b).is_prefix_of(s),
    ensures
        a == b,
{
    reveal_strlit("d-i passwd/username string");
    reveal_strlit("d-i passwd/user-password password");
    reveal_strlit("d-i passwd/user-password-again password");
    reveal_strlit("d-i netcfg/get_hostname string");
    assert(forall|i: int| 0 <= i < key(a).len() ==> s[i] == key(a)[i]);
    assert(forall|i: int| 0 <= i < key(b).len() ==> s[i] == key(b)[i]);
    assert(key(a)[4] == key(b)[4]);
    assert(key(a)[15] == key(b)[15]);
    assert(key(a)[24] == key(b)[24]);
}

/// Appending to a text of lines.
proof fn lemma_render_push(ls: Seq<Seq<char>>, l: Seq<char>)
    ensures
        render(ls.push(l)) == render(ls) + l.push('\n'),
{
    assert(ls.push(l).drop_last() == ls);
}

/// Appends the line that gives the setting of `key` the value `value`.
fn push_setting(out: &mut String, key: &str, value: &str)
    ensures
        final(out)@ == old(out)@ + (key@ + seq![' '] + value@).push('\n'),
{
    out.append(key);
    out.push(' ');
    out.append(value);
    out.push('\n');
    assert(out@ == old(out)@ + (key@ + seq![' '] + value@).push('\n'));
}

/// Whether a line that starts, after white space, as `trimmed` does is to be replaced
/// because `value` was asked for the setting of `key`.
fn takes(trimmed: &[char], key: &[char], value: Option<&str>) -> (r: bool)
    ensures
        r == (value is Some && key@.is_prefix_of(trimmed@)),
{
    value.is_some() && starts_with(trimmed, key)
}

/// Applies overrides to a preseed configuration.
///
/// Each line that gives the user name, the password, the repeated password or the
/// host name is replaced where a value for it was asked; white space before the key
/// does not matter. Where no line gives a setting that was asked for, a line for it is
/// appended. All other lines stay as they are, in their order. Each line of the result
/// ends with a newline.
pub fn modify_preseed(
    content: &str,
    username: Option<&str>,
    password: Option<&str>,
    hostname: Option<&str>,
) -> (r: String)
    ensures
        r@ == modified(
            content@,
            (Overrides {
                username: value_view(username),
                password: value_view(password),
                hostname: value_view(hostname),
            }),
        ),
{
    let ghost o = Overrides {
        username: value_view(username),
        password: value_view(password),
        hostname: value_view(hostname),
    };
    let ghost ls = lines(content@);
    let content_lines = split_lines(content);
    let username_key = to_chars(USERNAME_KEY);
    let password_key = to_chars(PASSWORD_KEY);
    let password_again_key = to_chars(PASSWORD_AGAIN_KEY);
    let hostname_key = to_chars(HOSTNAME_KEY);

    let mut out = String::new();
    let mut username_replaced = false;
    let mut password_replaced = false;
    let mut password_again_replaced = false;
    let mut hostname_replaced = false;
    let ghost mut done: Seq<Seq<char>> = Seq::empty();

    let mut i: usize = 0;
    while i < content_lines.len()
        invariant
            i <= content_lines.len(),
            content_lines.deep_view() == ls,
            o == (Overrides {
                username: value_view(username),
                password: value_view(password),
                hostname: value_view(hostname),
            }),
            username_key@ == key(Setting::Username),
            password_key@ == key(Setting::Password),
            password_again_key@ == key(Setting::PasswordAgain),
            hostname_key@ == key(Setting::Hostname),
            done == ls.take(i as int).map_values(|l: Seq<char>| o.rewritten(l)),
            out@ == render(done),
            username_replaced == o.found(Setting::Username, ls.take(i as int)),
            password_replaced == o.found(Setting::Password, ls.take(i as int)),
            password_again_replaced == o.found(Setting::PasswordAgain, ls.take(i as int)),
            hostname_replaced == o.found(Setting::Hostname, ls.take(i as int)),
        decreases content_lines.len() - i,
    {
        let line = &content_lines[i];
        let trimmed = trimmed_start(line.as_slice());
        proof {
            assert(line.deep_view() == line@);
            assert(line@ == ls[i as int]);
            lemma_found_push(o, ls, i as int);
            lemma_render_push(done, o.rewritten(line@));
            assert(ls.take(i + 1).map_values(|l: Seq<char>| o.rewritten(l)) == done.push(
                o.rewritten(line@),
            ));
            done = done.push(o.rewritten(line@));
            lemma_one_claim(o, line@);
        }
        i += 1;

        if takes(trimmed, &username_key, username) {
            if let Some(user) = username {
                push_setting(&mut out, USERNAME_KEY, user);
            }
            username_replaced = true;
            continue;
        }
        if takes(trimmed, &password_key, password) {
            if let Some(pass) = password {
                push_setting(&mut out, PASSWORD_KEY, pass);
            }
            password_replaced = true;
            continue;
        }
        if takes(trimmed, &password_again_key, password) {
            if let Some(pass) = password {
                push_setting(&mut out, PASSWORD_AGAIN_KEY, pass);
            }
            password_again_replaced = true;
            continue;
        }
        if takes(trimmed, &hostname_key, hostname) {
            if let Some(host) = hostname {
                push_setting(&mut out, HOSTNAME_KEY, host);
            }
            hostname_replaced = true;
            continue;
        }
        let ghost before = out@;
        out.append(to_text(line.as_slice()).as_str());
        out.push('\n');
        assert(out@ == before + line@.push('\n'));
    }
    assert(ls.take(i as int) == ls);

    proof {
        lemma_render_missing(o, Setting::Username, ls, done);
        done = done + o.missing(Setting::Username, ls);
        lemma_render_missing(o, Setting::Password, ls, done);
        done = done + o.missing(Setting::Password, ls);
        lemma_render_missing(o, Setting::PasswordAgain, ls, done);
        done = done + o.missing(Setting::PasswordAgain, ls);
        lemma_render_missing(o, Setting::Hostname, ls, done);
        done = done + o.missing(Setting::Hostname, ls);
        assert(done == o.applied(ls));
    }

    if let Some(user) = username {
        if !username_replaced {
            push_setting(&mut out, USERNAME_KEY, user);
        }
    }
    if let Some(pass) = password {
        if !password_replaced {
            push_setting(&mut out, PASSWORD_KEY, pass);
        }
        if !password_again_replaced {
            push_setting(&mut out, PASSWORD_AGAIN_KEY, pass);
        }
    }
    if let Some(host) = hostname {
        if !hostname_replaced {
            push_setting(&mut out, HOSTNAME_KEY, host);
        }
    }
    out
}

/// What a missing setting adds to the text.
proof fn lemma_render_missing(o: Overrides, s: Setting, ls: Seq<Seq<char>>, done: Seq<Seq<char>>)
    ensures
        render(done + o.missing(s, ls)) == if o.value(s) is Some && !o.found(s, ls) {
            render(done) + o.line(s).push('\n')
        } else {
            render(done)
        },
{
    if o.value(s) is Some && !o.found(s, ls) {
        lemma_render_push(done, o.line(s));
        assert(done + o.missing(s, ls) == done.push(o.line(s)));
    } else {
        assert(done + o.missing(s, ls) == done);
    }
}

/// One more line can only add to what was found.
proof fn lemma_found_push(o: Overrides, ls: Seq<Seq<char>>, i: int)
    requires
        0 <= i < ls.len(),
    ensures
        forall|s: Setting| #[trigger]
            o.found(s, ls.take(i + 1)) == (o.found(s, ls.take(i)) || o.claims(s, ls[i])),
{
    assert forall|s: Setting| #[trigger]
        o.found(s, ls.take(i + 1)) == (o.found(s, ls.take(i)) || o.claims(s, ls[i])) by {
        if o.found(s, ls.take(i)) {
            let j = choose|j: int| 0 <= j < i && o.claims(s, #[trigger] ls.take(i)[j]);
            assert(o.claims(s, ls.take(i + 1)[j]));
        }
        if o.claims(s, ls[i]) {
            assert(o.claims(s, ls.take(i + 1)[i]));
        }
        if o.found(s, ls.take(i + 1)) {
            let j = choose|j: int| 0 <= j < i + 1 && o.claims(s, #[trigger] ls.take(i + 1)[j]);
            if j < i {
                assert(o.claims(s, ls.take(i)[j]));
            }
        }
    }
}

/// At most one setting claims a line.
proof fn lemma_one_claim(o: Overrides, line: Seq<char>)
    ensures
        forall|a: Setting, b: Setting| #[trigger]
            o.claims(a, line) && #[trigger] o.claims(b, line) ==> a == b,
{
    assert forall|a: Setting, b: Setting| #[trigger]
        o.claims(a, line) && #[trigger] o.claims(b, line) implies a == b by {
        lemma_keys_exclude(a, b, trim_start(line));
    }
}

/// No line holds a newline.
pub proof fn lemma_lines_hold_no_newline(s: Seq<char>)
    ensures
        forall|i: int| 0 <= i < lines(s).len() ==> !(#[trigger] lines(s)[i]).contains('\n'),
    decreases s.len(),
{
    if s.len() > 0 {
        lemma_line_len(s);
        let n = line_len(s) as int;
        if n < s.len() {
            lemma_lines_hold_no_newline(s.skip(n + 1));
            let first = strip_cr(s.take(n));
            assert forall|i: int| 0 <= i < lines(s).len() implies !(#[trigger] lines(
                s,
            )[i]).contains('\n') by {
                if i == 0 {
                    assert forall|j: int| 0 <= j < first.len() implies first[j] != '\n' by {
                        assert(first[j] == s[j]);
                    }
                } else {
                    assert(lines(s)[i] == lines(s.skip(n + 1))[i - 1]);
                }
            }
        }
    }
}

/// A line put before a text of lines.
proof fn lemma_render_cons(l: Seq<char>, ls: Seq<Seq<char>>)
    ensures
        render(seq![l] + ls) == l.push('\n') + render(ls),
    decreases ls.len(),
{
    if ls.len() == 0 {
        assert((seq![l] + ls).drop_last() == ls);
        assert((seq![l] + ls).last() == l);
        assert(render(seq![l] + ls) == l.push('\n') + render(ls));
    } else {
        lemma_render_cons(l, ls.drop_last());
        assert((seq![l] + ls).drop_last() == seq![l] + ls.drop_last());
        assert((seq![l] + ls).last() == ls.last());
        assert(l.push('\n') + render(ls.drop_last()) + ls.last().push('\n') == l.push('\n') + (
        render(ls.drop_last()) + ls.last().push('\n')));
    }
}

/// Reading the first line back.
proof fn lemma_lines_cons(l: Seq<char>, rest: Seq<char>)
    requires
        !l.contains('\n'),
    ensures
        lines(l.push('\n') + rest) == seq![strip_cr(l)] + lines(rest),
{
    let s = l.push('\n') + rest;
    assert forall|i: int| 0 <= i < l.len() implies #[trigger] s[i] != '\n' by {
        assert(s[i] == l[i]);
        assert(l.contains(l[i]));
    }
    lemma_line_len_is(s, l.len() as int);
    assert(s.take(l.len() as int) == l);
    assert(s.skip(l.len() as int + 1) == rest);
}

/// What is read back of a rendered text: its lines, each without one `\r` at its end.
pub proof fn lemma_lines_render(ls: Seq<Seq<char>>)
    requires
        forall|i: int| 0 <= i < ls.len() ==> !(#[trigger] ls[i]).contains('\n'),
    ensures
        lines(render(ls)) == ls.map_values(|l: Seq<char>| strip_cr(l)),
    decreases ls.len(),
{
    if ls.len() > 0 {
        let rest = ls.skip(1);
        assert forall|i: int| 0 <= i < rest.len() implies !(#[trigger] rest[i]).contains('\n') by {
            assert(rest[i] == ls[i + 1]);
        }
        lemma_lines_render(rest);
        assert(ls == seq![ls[0]] + rest);
        lemma_render_cons(ls[0], rest);
        lemma_lines_cons(ls[0], render(rest));
    }
    assert(lines(render(ls)) =~= ls.map_values(|l: Seq<char>| strip_cr(l)));
}

/// `s` with a newline at its end, where there is anything that it can end.
pub open spec fn ended(s: Seq<char>) -> Seq<char> {
    if s.len() == 0 || s.last() == '\n' {
        s
    } else {
        s.push('\n')
    }
}

/// `s` with each line ended by a newline alone, the last one too.
pub open spec fn plain_endings(s: Seq<char>) -> Seq<char> {
    ended(replaced(s, seq!['\r', '\n'], seq!['\n']))
}

/// The ending of the first line becomes a newline alone.
proof fn lemma_plain_line(l: Seq<char>, rest: Seq<char>)
    requires
        !l.contains('\n'),
    ensures
        replaced(l.push('\n') + rest, seq!['\r', '\n'], seq!['\n']) == strip_cr(l).push('\n')
            + replaced(rest, seq!['\r', '\n'], seq!['\n']),
    decreases l.len(),
{
    let pat = seq!['\r', '\n'];
    let with = seq!['\n'];
    let s = l.push('\n') + rest;
    if pat.is_prefix_of(s) {
        assert(s.subrange(0, 2)[0] == s[0]);
        assert(s.subrange(0, 2)[1] == s[1]);
        assert(l.len() == 1) by {
            if l.len() > 1 {
                assert(l.contains(l[1]));
            }
        }
        assert(s.skip(2) =~= rest);
        assert(strip_cr(l).push('\n') =~= with);
    } else if l.len() == 0 {
        assert(s.skip(1) =~= rest);
        assert(strip_cr(l).push('\n') =~= seq![s[0]]);
    } else {
        if l.len() == 1 && l[0] == '\r' {
            assert(s.subrange(0, 2) =~= pat);
        }
        let tail = l.skip(1);
        assert(!tail.contains('\n')) by {
            if tail.contains('\n') {
                let k = choose|k: int| 0 <= k < tail.len() && tail[k] == '\n';
                assert(l[k + 1] == '\n');
            }
        }
        lemma_plain_line(tail, rest);
        assert(s.skip(1) =~= tail.push('\n') + rest);
        assert(tail.len() > 0 ==> tail.last() == l.last());
        assert(strip_cr(l) =~= seq![l[0]] + strip_cr(tail));
        assert(strip_cr(l).push('\n') + replaced(rest, pat, with) =~= seq![s[0]] + (strip_cr(
            tail,
        ).push('\n') + replaced(rest, pat, with)));
    }
}

/// Reading and rendering a text changes its line endings and nothing else.
pub proof fn lemma_render_lines(s: Seq<char>)
    ensures
        render(lines(s)) == plain_endings(s),
    decreases s.len(),
{
    let pat = seq!['\r', '\n'];
    let with = seq!['\n'];
    if s.len() > 0 {
        lemma_line_len(s);
        let n = line_len(s) as int;
        let l = s.take(n);
        assert(!l.contains('\n'));
        if n < s.len() {
            let rest = s.skip(n + 1);
            let first = strip_cr(l).push('\n');
            lemma_render_lines(rest);
            lemma_render_cons(strip_cr(l), lines(rest));
            assert(s =~= l.push('\n') + rest);
            lemma_plain_line(l, rest);
            assert(ended(first + replaced(rest, pat, with)) =~= first + ended(
                replaced(rest, pat, with),
            ));
        } else {
            assert(l =~= s);
            if contains(s, pat) {
                let i = choose|i: int| occurs_at(s, pat, i);
                assert(s.subrange(i, i + 2)[1] == s[i + 1]);
                assert(s.contains(s[i + 1]));
            }
            lemma_replaced_nothing(s, pat, with);
            assert(lines(s).drop_last() =~= Seq::<Seq<char>>::empty());
            assert(render(lines(s).drop_last()) =~= Seq::<char>::empty());
            assert(render(lines(s)) =~= s.push('\n'));
        }
    }
}

/// Where no override is asked for, the line endings of a configuration become newlines
/// alone, the last line gets one where it has none, and nothing else changes.
pub proof fn law_no_overrides_change_endings_alone(content: Seq<char>)
    ensures
        modified(content, Overrides { username: None, password: None, hostname: None })
            == plain_endings(content),
{
    let o = Overrides { username: None, password: None, hostname: None };
    lemma_render_lines(content);
    assert(o.applied(lines(content)) == lines(content));
}

/// Where no override is asked for, a configuration with plain line endings is left as it
/// is; the last line gets its ending where it has none.
pub proof fn law_no_overrides_change_nothing(content: Seq<char>)
    requires
        !contains(content, seq!['\r', '\n']),
    ensures
        modified(content, Overrides { username: None, password: None, hostname: None }) == ended(
            content,
        ),
{
    law_no_overrides_change_endings_alone(content);
    lemma_replaced_nothing(content, seq!['\r', '\n'], seq!['\n']);
}

impl Overrides {
    /// No value asked for holds a newline.
    pub open spec fn single_line(self) -> bool {
        forall|s: Setting| (#[trigger] self.value(s)) is Some ==> !self.value(s)->0.contains('\n')
    }

    /// No value asked for ends with a carriage return.
    pub open spec fn no_trailing_cr(self) -> bool {
        forall|s: Setting|
            (#[trigger] self.value(s)) is Some && self.value(s)->0.len() > 0
                ==> self.value(s)->0.last() != '\r'
    }

    /// `other` asks for values of the same settings.
    pub open spec fn same_settings(self, other: Overrides) -> bool {
        forall|s: Setting| (#[trigger] self.value(s)) is Some <==> other.value(s) is Some
    }

    /// Each line that gives no setting asked for ends with no `\r`.
    pub open spec fn others_end_plainly(self, ls: Seq<Seq<char>>) -> bool {
        forall|i: int|
            0 <= i < ls.len() && (forall|s: Setting| !self.claims(s, #[trigger] ls[i]))
                ==> strip_cr(ls[i]) == ls[i]
    }
}

/// A key is a non-empty text of one line that starts with no white space.
proof fn lemma_key(s: Setting)
    ensures
        key(s).len() > 0,
        !is_whitespace(key(s)[0]),
        !key(s).contains('\n'),
{
    reveal_strlit("d-i passwd/username string");
    reveal_strlit("d-i passwd/user-password password");
    reveal_strlit("d-i passwd/user-password-again password");
    reveal_strlit("d-i netcfg/get_hostname string");
    assert forall|i: int| 0 <= i < key(s).len() implies key(s)[i] != '\n' by {}
}

/// The line for a setting gives that setting, and is itself one line.
proof fn lemma_setting_line(s: Setting, value: Seq<char>)
    ensures
        trim_start(setting_line(s, value)) == setting_line(s, value),
        key(s).is_prefix_of(setting_line(s, value)),
        key(s).is_prefix_of(trim_start(strip_cr(setting_line(s, value)))),
        !value.contains('\n') ==> !setting_line(s, value).contains('\n'),
        value.len() == 0 || value.last() != '\r' ==> strip_cr(setting_line(s, value))
            == setting_line(s, value),
{
    lemma_key(s);
    let l = setting_line(s, value);
    assert(l[0] == key(s)[0]);
    assert(l.subrange(0, key(s).len() as int) == key(s));
    let c = strip_cr(l);
    assert(c.len() >= key(s).len()) by {
        assert(value.len() == 0 ==> l.last() == ' ');
    }
    assert(c[0] == key(s)[0]);
    assert(c.subrange(0, key(s).len() as int) == key(s));
    if !value.contains('\n') {
        assert forall|i: int| 0 <= i < l.len() implies l[i] != '\n' by {
            if i < key(s).len() {
                assert(key(s).contains(key(s)[i]));
            } else if i > key(s).len() {
                assert(l[i] == value[i - key(s).len() - 1]);
                assert(value.contains(value[i - key(s).len() - 1]));
            }
        }
    }
}

/// A carriage return at the end of a line does not change what the line starts with.
proof fn lemma_trim_strip(l: Seq<char>, k: Seq<char>)
    requires
        k.len() > 0,
        k.is_prefix_of(trim_start(strip_cr(l))),
    ensures
        k.is_prefix_of(trim_start(l)),
    decreases l.len(),
{
    let c = strip_cr(l);
    if c.len() > 0 && is_whitespace(c[0]) {
        assert(l.skip(1).len() > 0 ==> l.skip(1).last() == l.last());
        if c.len() < l.len() {
            assert(strip_cr(l.skip(1)) == c.skip(1));
        }
        lemma_trim_strip(l.skip(1), k);
    } else {
        assert(c.subrange(0, k.len() as int) == l.subrange(0, k.len() as int));
    }
}

/// A line that gives `s` after the rewriting is the line that was asked for.
proof fn lemma_rewritten_gives(o: Overrides, s: Setting, l: Seq<char>)
    requires
        o.value(s) is Some,
        key(s).is_prefix_of(trim_start(o.rewritten(l))),
    ensures
        o.rewritten(l) == o.line(s),
{
    if exists|t: Setting| o.claims(t, l) && o.rewritten(l) == o.line(t) {
        let t = choose|t: Setting| o.claims(t, l) && o.rewritten(l) == o.line(t);
        lemma_setting_line(t, o.value(t)->0);
        lemma_keys_exclude(s, t, o.line(t));
    } else {
        assert(!o.claims(Setting::Username, l));
        assert(!o.claims(Setting::Password, l));
        assert(!o.claims(Setting::PasswordAgain, l));
        assert(!o.claims(Setting::Hostname, l));
        assert(o.claims(s, l));
    }
}

/// A line that a setting claims becomes the line for that setting.
proof fn lemma_claimed_is_rewritten(o: Overrides, s: Setting, l: Seq<char>)
    requires
        o.claims(s, l),
    ensures
        o.rewritten(l) == o.line(s),
{
    lemma_one_claim(o, l);
}

/// Where the line for each part of the applied lines comes from: a line of the
/// configuration, or a setting that was missing there.
proof fn lemma_applied_part(o: Overrides, ls: Seq<Seq<char>>, i: int)
    requires
        0 <= i < o.applied(ls).len(),
    ensures
        i < ls.len() ==> o.applied(ls)[i] == o.rewritten(ls[i]),
        i >= ls.len() ==> exists|t: Setting|
            #![trigger o.line(t)]
            o.value(t) is Some && !o.found(t, ls) && o.applied(ls)[i] == o.line(t),
{
    if i >= ls.len() {
        let a = ls.map_values(|l: Seq<char>| o.rewritten(l));
        let m1 = o.missing(Setting::Username, ls);
        let m2 = o.missing(Setting::Password, ls);
        let m3 = o.missing(Setting::PasswordAgain, ls);
        let m4 = o.missing(Setting::Hostname, ls);
        let t = if i < (a + m1).len() {
            Setting::Username
        } else if i < (a + m1 + m2).len() {
            Setting::Password
        } else if i < (a + m1 + m2 + m3).len() {
            Setting::PasswordAgain
        } else {
            Setting::Hostname
        };
        assert(o.value(t) is Some && !o.found(t, ls) && o.applied(ls)[i] == o.line(t));
    }
}

/// The line for each setting asked for is among the applied lines.
proof fn lemma_applied_has(o: Overrides, ls: Seq<Seq<char>>, s: Setting) -> (i: int)
    requires
        o.value(s) is Some,
    ensures
        0 <= i < o.applied(ls).len(),
        o.applied(ls)[i] == o.line(s),
{
    if o.found(s, ls) {
        let j = choose|j: int| 0 <= j < ls.len() && o.claims(s, #[trigger] ls[j]);
        lemma_claimed_is_rewritten(o, s, ls[j]);
        assert(o.applied(ls)[j] == o.rewritten(ls[j]));
        j
    } else {
        let a = ls.map_values(|l: Seq<char>| o.rewritten(l));
        let m1 = o.missing(Setting::Username, ls);
        let m2 = o.missing(Setting::Password, ls);
        let m3 = o.missing(Setting::PasswordAgain, ls);
        match s {
            Setting::Username => a.len() as int,
            Setting::Password => (a + m1).len() as int,
            Setting::PasswordAgain => (a + m1 + m2).len() as int,
            Setting::Hostname => (a + m1 + m2 + m3).len() as int,
        }
    }
}

/// The applied lines hold no newline, where no line and no value does.
proof fn lemma_applied_single_lines(content: Seq<char>, o: Overrides)
    requires
        o.single_line(),
    ensures
        forall|i: int|
            0 <= i < o.applied(lines(content)).len() ==> !(#[trigger] o.applied(
                lines(content),
            )[i]).contains('\n'),
        lines(modified(content, o)) == o.applied(lines(content)).map_values(
            |l: Seq<char>| strip_cr(l),
        ),
{
    let ls = lines(content);
    let es = o.applied(ls);
    lemma_lines_hold_no_newline(content);
    assert forall|i: int| 0 <= i < es.len() implies !(#[trigger] es[i]).contains('\n') by {
        lemma_applied_part(o, ls, i);
        if i < ls.len() {
            lemma_rewritten_single_line(o, ls[i]);
        } else {
            let t = choose|t: Setting|
                #![trigger o.line(t)]
                o.value(t) is Some && !o.found(t, ls) && es[i] == o.line(t);
            lemma_setting_line(t, o.value(t)->0);
        }
    }
    lemma_lines_render(es);
}

/// Rewriting a line gives a line.
proof fn lemma_rewritten_single_line(o: Overrides, l: Seq<char>)
    requires
        o.single_line(),
        !l.contains('\n'),
    ensures
        !o.rewritten(l).contains('\n'),
{
    assert forall|s: Setting| #[trigger] o.value(s) is Some implies !o.line(s).contains('\n') by {
        lemma_setting_line(s, o.value(s)->0);
    }
    assert(o.claims(Setting::Username, l) ==> o.value(Setting::Username) is Some);
    assert(o.claims(Setting::Password, l) ==> o.value(Setting::Password) is Some);
    assert(o.claims(Setting::PasswordAgain, l) ==> o.value(Setting::PasswordAgain) is Some);
    assert(o.claims(Setting::Hostname, l) ==> o.value(Setting::Hostname) is Some);
}

/// Whoever reads the result back finds each setting that was asked for, with the value
/// asked for and with no other. The values are single lines that end with no `\r`.
pub proof fn law_overrides_take_effect(content: Seq<char>, o: Overrides, s: Setting)
    requires
        o.single_line(),
        o.no_trailing_cr(),
        o.value(s) is Some,
    ensures
        lines(modified(content, o)).contains(setting_line(s, o.value(s)->0)),
        forall|i: int|
            0 <= i < lines(modified(content, o)).len() && key(s).is_prefix_of(
                trim_start(#[trigger] lines(modified(content, o))[i]),
            ) ==> lines(modified(content, o))[i] == setting_line(s, o.value(s)->0),
{
    let ls = lines(content);
    let es = o.applied(ls);
    let back = lines(modified(content, o));
    lemma_applied_single_lines(content, o);
    lemma_setting_line(s, o.value(s)->0);
    let k = lemma_applied_has(o, ls, s);
    assert(back[k] == strip_cr(es[k]));
    assert forall|i: int|
        0 <= i < back.len() && key(s).is_prefix_of(trim_start(#[trigger] back[i])) implies back[i]
        == setting_line(s, o.value(s)->0) by {
        assert(back[i] == strip_cr(es[i]));
        lemma_key(s);
        lemma_trim_strip(es[i], key(s));
        lemma_applied_part(o, ls, i);
        if i < ls.len() {
            lemma_rewritten_gives(o, s, ls[i]);
        } else {
            let t = choose|t: Setting|
                #![trigger o.line(t)]
                o.value(t) is Some && !o.found(t, ls) && es[i] == o.line(t);
            lemma_setting_line(t, o.value(t)->0);
            lemma_keys_exclude(s, t, es[i]);
        }
    }
}

/// A line that gives no setting asked for keeps its place and its text; read back, it
/// lacks at most one `\r` at its end.
pub proof fn law_other_lines_stay(content: Seq<char>, o: Overrides, i: int)
    requires
        0 <= i < lines(content).len(),
        forall|s: Setting| !o.claims(s, lines(content)[i]),
    ensures
        o.applied(lines(content))[i] == lines(content)[i],
        o.single_line() ==> lines(modified(content, o))[i] == strip_cr(lines(content)[i]),
{
    let ls = lines(content);
    lemma_applied_part(o, ls, i);
    assert(o.rewritten(ls[i]) == ls[i]);
    if o.single_line() {
        lemma_applied_single_lines(content, o);
    }
}

/// What the second pass makes of a line that the first pass appended.
proof fn lemma_second_pass_missing(first: Overrides, second: Overrides, s: Setting, ls: Seq<Seq<char>>)
    requires
        first.same_settings(second),
    ensures
        first.missing(s, ls).map_values(|l: Seq<char>| strip_cr(l)).map_values(
            |l: Seq<char>| second.rewritten(l),
        ) == second.missing(s, ls),
{
    assert(first.value(s) is Some <==> second.value(s) is Some);
    lemma_same_found(first, second, s, ls);
    if first.value(s) is Some && !first.found(s, ls) {
        lemma_setting_line(s, first.value(s)->0);
        lemma_claimed_is_rewritten(second, s, strip_cr(first.line(s)));
    }
    assert(first.missing(s, ls).map_values(|l: Seq<char>| strip_cr(l)).map_values(
        |l: Seq<char>| second.rewritten(l),
    ) =~= second.missing(s, ls));
}

/// Overrides of the same settings claim the same lines.
proof fn lemma_same_found(first: Overrides, second: Overrides, s: Setting, ls: Seq<Seq<char>>)
    requires
        first.same_settings(second),
    ensures
        first.found(s, ls) == second.found(s, ls),
{
    assert(first.value(s) is Some <==> second.value(s) is Some);
    if first.found(s, ls) {
        let i = choose|i: int| 0 <= i < ls.len() && first.claims(s, #[trigger] ls[i]);
        assert(second.claims(s, ls[i]));
    }
    if second.found(s, ls) {
        let i = choose|i: int| 0 <= i < ls.len() && second.claims(s, #[trigger] ls[i]);
        assert(first.claims(s, ls[i]));
    }
}

/// What the second pass makes of a line that the first pass rewrote.
proof fn lemma_second_pass_line(first: Overrides, second: Overrides, l: Seq<char>)
    requires
        first.same_settings(second),
        (forall|s: Setting| !first.claims(s, l)) ==> strip_cr(l) == l,
    ensures
        second.rewritten(strip_cr(first.rewritten(l))) == second.rewritten(l),
{
    if exists|s: Setting| first.claims(s, l) {
        let s = choose|s: Setting| first.claims(s, l);
        assert(first.value(s) is Some <==> second.value(s) is Some);
        lemma_claimed_is_rewritten(first, s, l);
        lemma_claimed_is_rewritten(second, s, l);
        lemma_setting_line(s, first.value(s)->0);
        lemma_claimed_is_rewritten(second, s, strip_cr(first.line(s)));
    } else {
        assert(!first.claims(Setting::Username, l));
        assert(!first.claims(Setting::Password, l));
        assert(!first.claims(Setting::PasswordAgain, l));
        assert(!first.claims(Setting::Hostname, l));
    }
}

/// Overrides applied to a configuration that already has overrides of the same settings
/// give what they would have given in the first place. The earlier values are single
/// lines, and no other line of the configuration ends with `\r`.
pub proof fn law_later_overrides_replace_earlier(
    content: Seq<char>,
    first: Overrides,
    second: Overrides,
)
    requires
        first.same_settings(second),
        first.single_line(),
        first.others_end_plainly(lines(content)),
    ensures
        modified(modified(content, first), second) == modified(content, second),
{
    let ls = lines(content);
    let strip = |l: Seq<char>| strip_cr(l);
    let rewrite = |l: Seq<char>| second.rewritten(l);
    let a = ls.map_values(|l: Seq<char>| first.rewritten(l));
    let m1 = first.missing(Setting::Username, ls);
    let m2 = first.missing(Setting::Password, ls);
    let m3 = first.missing(Setting::PasswordAgain, ls);
    let m4 = first.missing(Setting::Hostname, ls);
    let es = first.applied(ls);
    let back = lines(modified(content, first));
    lemma_applied_single_lines(content, first);
    assert(back == es.map_values(strip));

    assert(a.map_values(strip).map_values(rewrite) == ls.map_values(rewrite)) by {
        assert forall|i: int| 0 <= i < ls.len() implies a.map_values(strip).map_values(rewrite)[i]
            == ls.map_values(rewrite)[i] by {
            lemma_second_pass_line(first, second, ls[i]);
        }
    }
    lemma_second_pass_missing(first, second, Setting::Username, ls);
    lemma_second_pass_missing(first, second, Setting::Password, ls);
    lemma_second_pass_missing(first, second, Setting::PasswordAgain, ls);
    lemma_second_pass_missing(first, second, Setting::Hostname, ls);
    assert(back.map_values(rewrite) == a.map_values(strip).map_values(rewrite) + m1.map_values(
        strip,
    ).map_values(rewrite) + m2.map_values(strip).map_values(rewrite) + m3.map_values(
        strip,
    ).map_values(rewrite) + m4.map_values(strip).map_values(rewrite));
    assert(back.map_values(rewrite) == second.applied(ls));

    assert forall|s: Setting| #[trigger]
        second.missing(s, back) == Seq::<Seq<char>>::empty() by {
        if second.value(s) is Some {
            assert(first.value(s) is Some);
            let k = lemma_applied_has(first, ls, s);
            lemma_setting_line(s, first.value(s)->0);
            assert(back[k] == strip_cr(es[k]));
            assert(second.claims(s, back[k]));
        }
    }
    assert(second.missing(Setting::Username, back) == Seq::<Seq<char>>::empty());
    assert(second.missing(Setting::Password, back) == Seq::<Seq<char>>::empty());
    assert(second.missing(Setting::PasswordAgain, back) == Seq::<Seq<char>>::empty());
    assert(second.missing(Setting::Hostname, back) == Seq::<Seq<char>>::empty());
    assert(second.applied(back) =~= back.map_values(rewrite));
}

/// The place of a setting in the order in which missing ones are appended.
pub open spec fn place(setting: Setting) -> int {
    match setting {
        Setting::Username => 0,
        Setting::Password => 1,
        Setting::PasswordAgain => 2,
        Setting::Hostname => 3,
    }
}

impl Overrides {
    /// No setting is asked for by both.
    pub open spec fn disjoint(self, other: Overrides) -> bool {
        forall|s: Setting| (#[trigger] self.value(s)) is None || other.value(s) is None
    }

    /// The values that either of the two asks for.
    pub open spec fn and(self, other: Overrides) -> Overrides {
        Overrides {
            username: if self.username is Some {
                self.username
            } else {
                other.username
            },
            password: if self.password is Some {
                self.password
            } else {
                other.password
            },
            hostname: if self.hostname is Some {
                self.hostname
            } else {
                other.hostname
            },
        }
    }

    /// What is to be appended for these overrides comes, in the order of the settings,
    /// before what is to be appended for the later ones.
    pub open spec fn appends_before(self, later: Overrides, ls: Seq<Seq<char>>) -> bool {
        forall|s: Setting, t: Setting|
            (#[trigger] self.missing(s, ls)).len() > 0 && (#[trigger] later.missing(t, ls)).len()
                > 0 ==> place(s) < place(t)
    }
}

/// A carriage return at the end of a line does not change whether the line gives a setting.
proof fn lemma_claims_strip(o: Overrides, s: Setting, l: Seq<char>)
    ensures
        o.claims(s, strip_cr(l)) == o.claims(s, l),
{
    lemma_key(s);
    if key(s).is_prefix_of(trim_start(l)) {
        lemma_strip_trim(l, s);
    }
    if key(s).is_prefix_of(trim_start(strip_cr(l))) {
        lemma_trim_strip(l, key(s));
    }
}

/// A line that starts with a key does so without a carriage return at its end.
proof fn lemma_strip_trim(l: Seq<char>, s: Setting)
    requires
        key(s).is_prefix_of(trim_start(l)),
    ensures
        key(s).is_prefix_of(trim_start(strip_cr(l))),
    decreases l.len(),
{
    let k = key(s);
    lemma_key(s);
    if is_whitespace(l[0]) {
        let rest = l.skip(1);
        lemma_strip_trim(rest, s);
        assert(rest.len() > 0) by {
            lemma_trim_start(rest);
        }
        assert(rest.last() == l.last());
        assert(strip_cr(l)[0] == l[0]);
        assert(strip_cr(l).skip(1) =~= strip_cr(rest));
    } else {
        reveal_strlit("d-i passwd/username string");
        reveal_strlit("d-i passwd/user-password password");
        reveal_strlit("d-i passwd/user-password-again password");
        reveal_strlit("d-i netcfg/get_hostname string");
        assert(l.subrange(0, k.len() as int)[k.len() - 1] == l[k.len() - 1]);
        assert(k[k.len() - 1] != '\r');
        assert(strip_cr(l).len() >= k.len());
        assert(strip_cr(l).subrange(0, k.len() as int) =~= l.subrange(0, k.len() as int));
        assert(strip_cr(l)[0] == l[0]);
    }
}

/// The line for a setting gives no other setting.
proof fn lemma_line_gives_one(o: Overrides, s: Setting, value: Seq<char>)
    requires
        o.value(s) is None,
    ensures
        o.rewritten(setting_line(s, value)) == setting_line(s, value),
        forall|t: Setting| !#[trigger] o.claims(t, setting_line(s, value)),
{
    let l = setting_line(s, value);
    lemma_setting_line(s, value);
    assert forall|t: Setting| !#[trigger] o.claims(t, l) by {
        if o.claims(t, l) {
            lemma_keys_exclude(s, t, l);
        }
    }
    assert(!o.claims(Setting::Username, l));
    assert(!o.claims(Setting::Password, l));
    assert(!o.claims(Setting::PasswordAgain, l));
    assert(!o.claims(Setting::Hostname, l));
}

/// What two passes make of a line of the configuration, and whether the second finds a
/// setting in it.
proof fn lemma_line_in_turn(first: Overrides, second: Overrides, l: Seq<char>)
    requires
        first.disjoint(second),
        first.no_trailing_cr(),
        (forall|s: Setting| !first.and(second).claims(s, l)) ==> strip_cr(l) == l,
    ensures
        second.rewritten(strip_cr(first.rewritten(l))) == first.and(second).rewritten(l),
        forall|s: Setting| #[trigger]
            second.claims(s, strip_cr(first.rewritten(l))) == second.claims(s, l),
{
    let both = first.and(second);
    let between = strip_cr(first.rewritten(l));
    assert forall|s: Setting| (#[trigger] both.value(s)) == if first.value(s) is Some {
        first.value(s)
    } else {
        second.value(s)
    } by {}
    if exists|s: Setting| first.claims(s, l) {
        let s = choose|s: Setting| first.claims(s, l);
        assert(both.value(s) == first.value(s));
        assert(first.value(s) is None || second.value(s) is None);
        lemma_claimed_is_rewritten(first, s, l);
        lemma_claimed_is_rewritten(both, s, l);
        lemma_setting_line(s, first.value(s)->0);
        lemma_line_gives_one(second, s, first.value(s)->0);
        assert forall|t: Setting| #[trigger] second.claims(t, between) == second.claims(t, l) by {
            if second.claims(t, l) {
                lemma_keys_exclude(s, t, trim_start(l));
            }
        }
    } else {
        assert(!first.claims(Setting::Username, l));
        assert(!first.claims(Setting::Password, l));
        assert(!first.claims(Setting::PasswordAgain, l));
        assert(!first.claims(Setting::Hostname, l));
        assert(first.rewritten(l) == l);
        assert forall|t: Setting| #[trigger] second.claims(t, between) == second.claims(t, l) by {
            lemma_claims_strip(second, t, l);
        }
        assert forall|t: Setting| #[trigger] both.claims(t, l) == second.claims(t, l) by {
            assert(both.value(t) == if first.value(t) is Some {
                first.value(t)
            } else {
                second.value(t)
            });
            assert(!first.claims(t, l));
        }
        if exists|s: Setting| second.claims(s, l) {
            let s = choose|s: Setting| second.claims(s, l);
            assert(second.claims(s, between));
            assert(both.claims(s, l));
            assert(first.value(s) is None || second.value(s) is None);
            assert(both.value(s) == second.value(s));
            lemma_claimed_is_rewritten(second, s, between);
            lemma_claimed_is_rewritten(both, s, l);
        } else {
            assert(both.rewritten(l) == l) by {
                assert(!both.claims(Setting::Username, l));
                assert(!both.claims(Setting::Password, l));
                assert(!both.claims(Setting::PasswordAgain, l));
                assert(!both.claims(Setting::Hostname, l));
            }
            assert(second.rewritten(between) == between) by {
                assert(!second.claims(Setting::Username, between));
                assert(!second.claims(Setting::Password, between));
                assert(!second.claims(Setting::PasswordAgain, between));
                assert(!second.claims(Setting::Hostname, between));
            }
        }
    }
}

/// What two passes append for a setting.
proof fn lemma_missing_in_turn(
    first: Overrides,
    second: Overrides,
    s: Setting,
    ls: Seq<Seq<char>>,
    back: Seq<Seq<char>>,
)
    requires
        first.disjoint(second),
        first.no_trailing_cr(),
        first.and(second).others_end_plainly(ls),
        back == first.applied(ls).map_values(|l: Seq<char>| strip_cr(l)),
    ensures
        first.missing(s, ls).map_values(|l: Seq<char>| strip_cr(l)).map_values(
            |l: Seq<char>| second.rewritten(l),
        ) == first.missing(s, ls),
        second.missing(s, back) == second.missing(s, ls),
        first.and(second).missing(s, ls) == first.missing(s, ls) + second.missing(s, ls),
        first.missing(s, ls).len() == 0 || second.missing(s, ls).len() == 0,
{
    let both = first.and(second);
    let es = first.applied(ls);
    assert(first.value(s) is None || second.value(s) is None);
    assert(both.value(s) == if first.value(s) is Some {
        first.value(s)
    } else {
        second.value(s)
    });
    if first.value(s) is Some {
        lemma_setting_line(s, first.value(s)->0);
        lemma_line_gives_one(second, s, first.value(s)->0);
        lemma_found_by(both, first, s, ls);
    }
    assert(first.missing(s, ls).map_values(|l: Seq<char>| strip_cr(l)).map_values(
        |l: Seq<char>| second.rewritten(l),
    ) =~= first.missing(s, ls));
    if second.value(s) is Some {
        lemma_found_by(both, second, s, ls);
        if second.found(s, ls) {
            let i = choose|i: int| 0 <= i < ls.len() && second.claims(s, #[trigger] ls[i]);
            lemma_applied_part(first, ls, i);
            lemma_line_in_turn(first, second, ls[i]);
            assert(back[i] == strip_cr(first.rewritten(ls[i])));
            assert(second.claims(s, back[i]));
        }
        if second.found(s, back) {
            let i = choose|i: int| 0 <= i < back.len() && second.claims(s, #[trigger] back[i]);
            lemma_applied_part(first, ls, i);
            assert(back[i] == strip_cr(es[i]));
            if i < ls.len() {
                lemma_line_in_turn(first, second, ls[i]);
                assert(second.claims(s, ls[i]));
            } else {
                let t = choose|t: Setting|
                    #![trigger first.line(t)]
                    first.value(t) is Some && !first.found(t, ls) && es[i] == first.line(t);
                assert(first.value(t) is None || second.value(t) is None);
                lemma_setting_line(t, first.value(t)->0);
                lemma_line_gives_one(second, t, first.value(t)->0);
            }
        }
    }
    assert(both.missing(s, ls) =~= first.missing(s, ls) + second.missing(s, ls));
}

/// Overrides that ask for the same value of a setting find it in the same lines.
proof fn lemma_found_by(a: Overrides, b: Overrides, s: Setting, ls: Seq<Seq<char>>)
    requires
        a.value(s) == b.value(s),
    ensures
        a.found(s, ls) == b.found(s, ls),
{
    if a.found(s, ls) {
        let i = choose|i: int| 0 <= i < ls.len() && a.claims(s, #[trigger] ls[i]);
        assert(b.claims(s, ls[i]));
    }
    if b.found(s, ls) {
        let i = choose|i: int| 0 <= i < ls.len() && b.claims(s, #[trigger] ls[i]);
        assert(a.claims(s, ls[i]));
    }
}

/// What was appended in two turns, in the order of the settings.
proof fn lemma_appended_in_order(
    a: Seq<Seq<char>>,
    f: spec_fn(Setting) -> Seq<Seq<char>>,
    g: spec_fn(Setting) -> Seq<Seq<char>>,
)
    requires
        forall|s: Setting, t: Setting|
            (#[trigger] f(s)).len() > 0 && (#[trigger] g(t)).len() > 0 ==> place(s) < place(t),
    ensures
        a + f(Setting::Username) + f(Setting::Password) + f(Setting::PasswordAgain) + f(
            Setting::Hostname,
        ) + g(Setting::Username) + g(Setting::Password) + g(Setting::PasswordAgain) + g(
            Setting::Hostname,
        ) == a + (f(Setting::Username) + g(Setting::Username)) + (f(Setting::Password) + g(
            Setting::Password,
        )) + (f(Setting::PasswordAgain) + g(Setting::PasswordAgain)) + (f(Setting::Hostname) + g(
            Setting::Hostname,
        )),
{
    let none = Seq::<Seq<char>>::empty();
    let (f0, f1, f2, f3) = (
        f(Setting::Username),
        f(Setting::Password),
        f(Setting::PasswordAgain),
        f(Setting::Hostname),
    );
    let (g0, g1, g2, g3) = (
        g(Setting::Username),
        g(Setting::Password),
        g(Setting::PasswordAgain),
        g(Setting::Hostname),
    );
    if g0.len() > 0 {
        assert(f0 =~= none && f1 =~= none && f2 =~= none && f3 =~= none);
    } else if g1.len() > 0 {
        assert(g0 =~= none && f1 =~= none && f2 =~= none && f3 =~= none);
    } else if g2.len() > 0 {
        assert(g0 =~= none && g1 =~= none && f2 =~= none && f3 =~= none);
    } else if g3.len() > 0 {
        assert(g0 =~= none && g1 =~= none && g2 =~= none && f3 =~= none);
    } else {
        assert(g0 =~= none && g1 =~= none && g2 =~= none && g3 =~= none);
    }
    assert(a + f0 + f1 + f2 + f3 + g0 + g1 + g2 + g3 =~= a + (f0 + g0) + (f1 + g1) + (f2 + g2) + (f3
        + g3));
}

/// Overrides of different settings can be applied one after the other, with the result that
/// they have together. The earlier values are single lines that end with no `\r`, no line
/// that gives another setting ends with `\r`, and missing settings are appended in their
/// order.
pub proof fn law_overrides_apply_in_turn(content: Seq<char>, first: Overrides, second: Overrides)
    requires
        first.disjoint(second),
        first.single_line(),
        first.no_trailing_cr(),
        first.and(second).others_end_plainly(lines(content)),
        first.appends_before(second, lines(content)),
    ensures
        modified(modified(content, first), second) == modified(content, first.and(second)),
{
    let ls = lines(content);
    let both = first.and(second);
    let strip = |l: Seq<char>| strip_cr(l);
    let rewrite = |l: Seq<char>| second.rewritten(l);
    let a = ls.map_values(|l: Seq<char>| first.rewritten(l));
    let f = |s: Setting| first.missing(s, ls);
    let g = |s: Setting| second.missing(s, ls);
    let back = lines(modified(content, first));
    lemma_applied_single_lines(content, first);
    assert(back == first.applied(ls).map_values(strip));

    let done = ls.map_values(|l: Seq<char>| both.rewritten(l));
    assert(a.map_values(strip).map_values(rewrite) == done) by {
        assert forall|i: int| 0 <= i < ls.len() implies a.map_values(strip).map_values(rewrite)[i]
            == done[i] by {
            lemma_line_in_turn(first, second, ls[i]);
        }
    }
    lemma_missing_in_turn(first, second, Setting::Username, ls, back);
    lemma_missing_in_turn(first, second, Setting::Password, ls, back);
    lemma_missing_in_turn(first, second, Setting::PasswordAgain, ls, back);
    lemma_missing_in_turn(first, second, Setting::Hostname, ls, back);
    let f0 = f(Setting::Username);
    let f1 = f(Setting::Password);
    let f2 = f(Setting::PasswordAgain);
    let f3 = f(Setting::Hostname);
    assert(back.map_values(rewrite) =~= a.map_values(strip).map_values(rewrite) + f0.map_values(
        strip,
    ).map_values(rewrite) + f1.map_values(strip).map_values(rewrite) + f2.map_values(
        strip,
    ).map_values(rewrite) + f3.map_values(strip).map_values(rewrite));
    lemma_appended_in_order(done, f, g);
    assert(second.applied(back) == both.applied(ls));
}

/// User name, password and host name can be set one at a time, in this order, with the
/// result that they have together. User name and password are single lines that end with
/// no `\r`, and no line that gives another setting ends with `\r`.
pub proof fn law_overrides_apply_one_at_a_time(content: Seq<char>, o: Overrides)
    requires
        (Overrides { hostname: None, ..o }).single_line(),
        (Overrides { hostname: None, ..o }).no_trailing_cr(),
        o.others_end_plainly(lines(content)),
    ensures
        ({
            let user = Overrides { username: o.username, password: None, hostname: None };
            let pass = Overrides { username: None, password: o.password, hostname: None };
            let host = Overrides { username: None, password: None, hostname: o.hostname };
            modified(modified(modified(content, user), pass), host) == modified(content, o)
        }),
{
    let ls = lines(content);
    let user = Overrides { username: o.username, password: None, hostname: None };
    let pass = Overrides { username: None, password: o.password, hostname: None };
    let host = Overrides { username: None, password: None, hostname: o.hostname };
    let early = Overrides { hostname: None, ..o };
    let late = pass.and(host);
    assert(user.and(late) =~= o);
    assert forall|s: Setting| (#[trigger] user.value(s)) is Some implies early.value(s)
        == user.value(s) by {}
    assert forall|s: Setting| (#[trigger] pass.value(s)) is Some implies early.value(s)
        == pass.value(s) by {}
    law_overrides_apply_in_turn(content, user, late);

    let between = lines(modified(content, user));
    lemma_applied_single_lines(content, user);
    assert forall|i: int|
        0 <= i < between.len() && (forall|s: Setting|
            !late.claims(s, #[trigger] between[i])) implies strip_cr(between[i]) == between[i] by {
        lemma_applied_part(user, ls, i);
        assert(between[i] == strip_cr(user.applied(ls)[i]));
        if i < ls.len() {
            let l = ls[i];
            lemma_line_in_turn(user, late, l);
            if user.claims(Setting::Username, l) {
                lemma_setting_line(Setting::Username, user.value(Setting::Username)->0);
            } else {
                assert(user.rewritten(l) == l);
                assert forall|s: Setting| !#[trigger] o.claims(s, l) by {
                    assert(!late.claims(s, between[i]));
                    assert(late.claims(s, between[i]) == late.claims(s, l));
                    assert(!user.claims(s, l));
                    assert(o.value(s) == if user.value(s) is Some {
                        user.value(s)
                    } else {
                        late.value(s)
                    });
                }
            }
        } else {
            let t = choose|t: Setting|
                #![trigger user.line(t)]
                user.value(t) is Some && !user.found(t, ls) && user.applied(ls)[i] == user.line(t);
            lemma_setting_line(t, user.value(t)->0);
        }
    }
    law_overrides_apply_in_turn(modified(content, user), pass, host);
}

/// The text of lines is one line behind the other, each with a newline behind it.
proof fn lemma_render_flatten(ls: Seq<Seq<char>>)
    ensures
        render(ls) == ls.map_values(|l: Seq<char>| l.push('\n')).flatten(),
    decreases ls.len(),
{
    let ended_lines = ls.map_values(|l: Seq<char>| l.push('\n'));
    if ls.len() > 0 {
        let rest = ls.skip(1);
        lemma_render_flatten(rest);
        lemma_render_cons(ls[0], rest);
        assert(ls =~= seq![ls[0]] + rest);
        assert(ended_lines.drop_first() =~= rest.map_values(|l: Seq<char>| l.push('\n')));
        assert(ended_lines.first() == ls[0].push('\n'));
    }
}

/// A text of lines holds each of them, ended by a newline, behind an ended line.
proof fn lemma_render_at(ls: Seq<Seq<char>>, k: int) -> (parts: (Seq<char>, Seq<char>))
    requires
        0 <= k < ls.len(),
    ensures
        render(ls) == parts.0 + ls[k].push('\n') + parts.1,
        parts.0.len() == 0 || parts.0.last() == '\n',
    decreases ls.len(),
{
    if k == ls.len() - 1 {
        let before = render(ls.drop_last());
        let none = Seq::<char>::empty();
        assert(before + ls[k].push('\n') + none =~= render(ls));
        (before, none)
    } else {
        let (before, after) = lemma_render_at(ls.drop_last(), k);
        let last = ls.last().push('\n');
        assert(ls.drop_last()[k] == ls[k]);
        assert(before + ls[k].push('\n') + (after + last) =~= render(ls));
        (before, after + last)
    }
}

/// The keys, and what stands before a value, in full.
proof fn lemma_keys_in_full()
    ensures
        key(Setting::Username) == "d-i passwd/username string"@,
        forall|v: Seq<char>| #[trigger] setting_line(Setting::Username, v) == "d-i passwd/username string "@ + v,
        key(Setting::Password) == "d-i passwd/user-password password"@,
        forall|v: Seq<char>| #[trigger] setting_line(Setting::Password, v) == "d-i passwd/user-password password "@ + v,
        key(Setting::PasswordAgain) == "d-i passwd/user-password-again password"@,
        forall|v: Seq<char>| #[trigger] setting_line(Setting::PasswordAgain, v) == "d-i passwd/user-password-again password "@ + v,
        key(Setting::Hostname) == "d-i netcfg/get_hostname string"@,
        forall|v: Seq<char>| #[trigger] setting_line(Setting::Hostname, v) == "d-i netcfg/get_hostname string "@ + v,
{
    reveal_strlit("d-i passwd/username string");
    reveal_strlit("d-i passwd/username string ");
    reveal_strlit("d-i passwd/user-password password");
    reveal_strlit("d-i passwd/user-password password ");
    reveal_strlit("d-i passwd/user-password-again password");
    reveal_strlit("d-i passwd/user-password-again password ");
    reveal_strlit("d-i netcfg/get_hostname string");
    reveal_strlit("d-i netcfg/get_hostname string ");
    assert forall|v: Seq<char>| #[trigger] setting_line(Setting::Username, v) == "d-i passwd/username string "@ + v by {
        assert(setting_line(Setting::Username, v) =~= "d-i passwd/username string "@ + v);
    }
    assert forall|v: Seq<char>| #[trigger] setting_line(Setting::Password, v) == "d-i passwd/user-password password "@ + v by {
        assert(setting_line(Setting::Password, v) =~= "d-i passwd/user-password password "@ + v);
    }
    assert forall|v: Seq<char>| #[trigger] setting_line(Setting::PasswordAgain, v) == "d-i passwd/user-password-again password "@ + v by {
        assert(setting_line(Setting::PasswordAgain, v) =~= "d-i passwd/user-password-again password "@ + v);
    }
    assert forall|v: Seq<char>| #[trigger] setting_line(Setting::Hostname, v) == "d-i netcfg/get_hostname string "@ + v by {
        assert(setting_line(Setting::Hostname, v) =~= "d-i netcfg/get_hostname string "@ + v);
    }
}

/// The configuration with its overrides, line by line: each line that gives a setting for
/// which a value was asked gives that value, all of it and nothing else; each other line
/// stays; and a line for each setting that was asked for and that no line gave follows.
///
/// The lines are handed out.
pub proof fn law_configuration_line_by_line(content: Seq<char>, o: Overrides) -> (out: Seq<Seq<char>>)
    ensures
        modified(content, o) == out.map_values(|l: Seq<char>| l.push('\n')).flatten(),
        out.len() >= lines(content).len(),
        forall|i: int|
            0 <= i < lines(content).len() && o.username is Some
                && "d-i passwd/username string"@.is_prefix_of(
                trim_start(#[trigger] lines(content)[i]),
            ) ==> out[i] == "d-i passwd/username string "@ + o.username->0,
        forall|i: int|
            0 <= i < lines(content).len() && o.password is Some
                && "d-i passwd/user-password password"@.is_prefix_of(
                trim_start(#[trigger] lines(content)[i]),
            ) ==> out[i] == "d-i passwd/user-password password "@ + o.password->0,
        forall|i: int|
            0 <= i < lines(content).len() && o.password is Some
                && "d-i passwd/user-password-again password"@.is_prefix_of(
                trim_start(#[trigger] lines(content)[i]),
            ) ==> out[i] == "d-i passwd/user-password-again password "@ + o.password->0,
        forall|i: int|
            0 <= i < lines(content).len() && o.hostname is Some
                && "d-i netcfg/get_hostname string"@.is_prefix_of(
                trim_start(#[trigger] lines(content)[i]),
            ) ==> out[i] == "d-i netcfg/get_hostname string "@ + o.hostname->0,
        forall|i: int|
            0 <= i < lines(content).len() && !(o.username is Some
                && "d-i passwd/username string"@.is_prefix_of(
                trim_start(#[trigger] lines(content)[i]),
            )) && !(o.password is Some && "d-i passwd/user-password password"@.is_prefix_of(
                trim_start(lines(content)[i]),
            )) && !(o.password is Some && "d-i passwd/user-password-again password"@.is_prefix_of(
                trim_start(lines(content)[i]),
            )) && !(o.hostname is Some && "d-i netcfg/get_hostname string"@.is_prefix_of(
                trim_start(lines(content)[i]),
            )) ==> out[i] == lines(content)[i],
        out.skip(lines(content).len() as int) == (if o.username is Some && (forall|i: int|
            0 <= i < lines(content).len() ==> !"d-i passwd/username string"@.is_prefix_of(
                trim_start(#[trigger] lines(content)[i]),
            )) {
            seq!["d-i passwd/username string "@ + o.username->0]
        } else {
            Seq::empty()
        }) + (if o.password is Some && (forall|i: int|
            0 <= i < lines(content).len() ==> !"d-i passwd/user-password password"@.is_prefix_of(
                trim_start(#[trigger] lines(content)[i]),
            )) {
            seq!["d-i passwd/user-password password "@ + o.password->0]
        } else {
            Seq::empty()
        }) + (if o.password is Some && (forall|i: int|
            0 <= i < lines(content).len() ==> !"d-i passwd/user-password-again password"@.is_prefix_of(
                trim_start(#[trigger] lines(content)[i]),
            )) {
            seq!["d-i passwd/user-password-again password "@ + o.password->0]
        } else {
            Seq::empty()
        }) + (if o.hostname is Some && (forall|i: int|
            0 <= i < lines(content).len() ==> !"d-i netcfg/get_hostname string"@.is_prefix_of(
                trim_start(#[trigger] lines(content)[i]),
            )) {
            seq!["d-i netcfg/get_hostname string "@ + o.hostname->0]
        } else {
            Seq::empty()
        }),
{
    let ls = lines(content);
    let out = o.applied(ls);
    lemma_keys_in_full();
    lemma_render_flatten(out);
    assert forall|i: int| 0 <= i < ls.len() implies out[i] == o.rewritten(#[trigger] ls[i]) by {
        lemma_applied_part(o, ls, i);
    }
    assert forall|i: int|
        0 <= i < ls.len() && o.username is Some && key(Setting::Username).is_prefix_of(
            trim_start(#[trigger] ls[i]),
        ) implies out[i] == setting_line(Setting::Username, o.username->0) by {
        assert(o.value(Setting::Username) == Some(o.username->0));
        lemma_claimed_is_rewritten(o, Setting::Username, ls[i]);
    }
    assert forall|i: int|
        0 <= i < ls.len() && o.password is Some && key(Setting::Password).is_prefix_of(
            trim_start(#[trigger] ls[i]),
        ) implies out[i] == setting_line(Setting::Password, o.password->0) by {
        assert(o.value(Setting::Password) == Some(o.password->0));
        lemma_claimed_is_rewritten(o, Setting::Password, ls[i]);
    }
    assert forall|i: int|
        0 <= i < ls.len() && o.password is Some && key(Setting::PasswordAgain).is_prefix_of(
            trim_start(#[trigger] ls[i]),
        ) implies out[i] == setting_line(Setting::PasswordAgain, o.password->0) by {
        assert(o.value(Setting::PasswordAgain) == Some(o.password->0));
        lemma_claimed_is_rewritten(o, Setting::PasswordAgain, ls[i]);
    }
    assert forall|i: int|
        0 <= i < ls.len() && o.hostname is Some && key(Setting::Hostname).is_prefix_of(
            trim_start(#[trigger] ls[i]),
        ) implies out[i] == setting_line(Setting::Hostname, o.hostname->0) by {
        assert(o.value(Setting::Hostname) == Some(o.hostname->0));
        lemma_claimed_is_rewritten(o, Setting::Hostname, ls[i]);
    }
    lemma_missing_in_full(o, Setting::Username, ls);
    lemma_missing_in_full(o, Setting::Password, ls);
    lemma_missing_in_full(o, Setting::PasswordAgain, ls);
    lemma_missing_in_full(o, Setting::Hostname, ls);
    assert(out.skip(ls.len() as int) =~= o.missing(Setting::Username, ls) + o.missing(
        Setting::Password,
        ls,
    ) + o.missing(Setting::PasswordAgain, ls) + o.missing(Setting::Hostname, ls));
    out
}

/// A setting is appended where a value was asked for and no line starts with its key.
proof fn lemma_missing_in_full(o: Overrides, s: Setting, ls: Seq<Seq<char>>)
    ensures
        o.missing(s, ls) == if o.value(s) is Some && (forall|i: int|
            0 <= i < ls.len() ==> !key(s).is_prefix_of(trim_start(#[trigger] ls[i]))) {
            seq![setting_line(s, o.value(s)->0)]
        } else {
            Seq::empty()
        },
{
    if o.value(s) is Some {
        if o.found(s, ls) {
            let i = choose|i: int| 0 <= i < ls.len() && o.claims(s, #[trigger] ls[i]);
            assert(key(s).is_prefix_of(trim_start(ls[i])));
        } else {
            assert forall|i: int| 0 <= i < ls.len() implies !key(s).is_prefix_of(
                trim_start(#[trigger] ls[i]),
            ) by {
                assert(!o.claims(s, ls[i]));
            }
        }
    }
}

/// Each value that was asked for stands in the result, all of it, on a line that has the key
/// of its setting and a space before it and nothing behind it. One password stands on both
/// of its lines.
pub proof fn law_values_are_written_in_full(content: Seq<char>, o: Overrides)
    ensures
        ({
            let result = modified(content, o);
            &&& o.username is Some ==> exists|a: Seq<char>, b: Seq<char>|
                result == #[trigger] (a + ("d-i passwd/username string "@ + o.username->0).push('\n')
                    + b) && (a.len() == 0
                    || a.last() == '\n')
            &&& o.password is Some ==> exists|a: Seq<char>, b: Seq<char>|
                result == #[trigger] (a + ("d-i passwd/user-password password "@ + o.password->0).push('\n')
                    + b) && (a.len() == 0
                    || a.last() == '\n')
            &&& o.password is Some ==> exists|a: Seq<char>, b: Seq<char>|
                result == #[trigger] (a + ("d-i passwd/user-password-again password "@ + o.password->0).push('\n')
                    + b) && (a.len() == 0
                    || a.last() == '\n')
            &&& o.hostname is Some ==> exists|a: Seq<char>, b: Seq<char>|
                result == #[trigger] (a + ("d-i netcfg/get_hostname string "@ + o.hostname->0).push('\n')
                    + b) && (a.len() == 0
                    || a.last() == '\n')
        }),
{
    let ls = lines(content);
    lemma_keys_in_full();
    if o.username is Some {
        assert(o.value(Setting::Username) == Some(o.username->0));
        let k = lemma_applied_has(o, ls, Setting::Username);
        let (a, b) = lemma_render_at(o.applied(ls), k);
        assert(modified(content, o)
            == a + ("d-i passwd/username string "@ + o.username->0).push('\n') + b);
    }
    if o.password is Some {
        assert(o.value(Setting::Password) == Some(o.password->0));
        let k = lemma_applied_has(o, ls, Setting::Password);
        let (a, b) = lemma_render_at(o.applied(ls), k);
        assert(modified(content, o)
            == a + ("d-i passwd/user-password password "@ + o.password->0).push('\n') + b);
    }
    if o.password is Some {
        assert(o.value(Setting::PasswordAgain) == Some(o.password->0));
        let k = lemma_applied_has(o, ls, Setting::PasswordAgain);
        let (a, b) = lemma_render_at(o.applied(ls), k);
        assert(modified(content, o)
            == a + ("d-i passwd/user-password-again password "@ + o.password->0).push('\n') + b);
    }
    if o.hostname is Some {
        assert(o.value(Setting::Hostname) == Some(o.hostname->0));
        let k = lemma_applied_has(o, ls, Setting::Hostname);
        let (a, b) = lemma_render_at(o.applied(ls), k);
        assert(modified(content, o)
            == a + ("d-i netcfg/get_hostname string "@ + o.hostname->0).push('\n') + b);
    }
}

/// Whoever reads the result back line by line finds behind each key the value that was asked
/// for, character for character, and finds each key. The values are single lines that end
/// with no `\r`.
pub proof fn law_values_are_read_back(content: Seq<char>, o: Overrides)
    requires
        o.username is Some ==> !o.username->0.contains('\n')
            && (o.username->0.len() == 0 || o.username->0.last()
            != '\r'),
        o.password is Some ==> !o.password->0.contains('\n')
            && (o.password->0.len() == 0 || o.password->0.last()
            != '\r'),
        o.hostname is Some ==> !o.hostname->0.contains('\n')
            && (o.hostname->0.len() == 0 || o.hostname->0.last()
            != '\r'),
    ensures
        ({
            let back = lines(modified(content, o));
            &&& o.username is Some ==> back.contains("d-i passwd/username string "@ + o.username->0)
            &&& o.username is Some ==> forall|i: int|
                0 <= i < back.len()
                    && "d-i passwd/username string"@.is_prefix_of(trim_start(#[trigger] back[i]))
                    ==> back[i] == "d-i passwd/username string "@ + o.username->0
            &&& o.password is Some ==> back.contains(
                "d-i passwd/user-password password "@ + o.password->0,
            )
            &&& o.password is Some ==> forall|i: int|
                0 <= i < back.len()
                    && "d-i passwd/user-password password"@.is_prefix_of(trim_start(#[trigger] back[i]))
                    ==> back[i] == "d-i passwd/user-password password "@ + o.password->0
            &&& o.password is Some ==> back.contains(
                "d-i passwd/user-password-again password "@ + o.password->0,
            )
            &&& o.password is Some ==> forall|i: int|
                0 <= i < back.len()
                    && "d-i passwd/user-password-again password"@.is_prefix_of(trim_start(#[trigger] back[i]))
                    ==> back[i] == "d-i passwd/user-password-again password "@ + o.password->0
            &&& o.hostname is Some ==> back.contains(
                "d-i netcfg/get_hostname string "@ + o.hostname->0,
            )
            &&& o.hostname is Some ==> forall|i: int|
                0 <= i < back.len()
                    && "d-i netcfg/get_hostname string"@.is_prefix_of(trim_start(#[trigger] back[i]))
                    ==> back[i] == "d-i netcfg/get_hostname string "@ + o.hostname->0
        }),
{
    lemma_keys_in_full();
    assert(o.single_line() && o.no_trailing_cr()) by {
        assert forall|s: Setting| (#[trigger] o.value(s)) is Some implies !o.value(s)->0.contains(
            '\n',
        ) && (o.value(s)->0.len() > 0 ==> o.value(s)->0.last() != '\r') by {}
    }
    if o.username is Some {
        assert(o.value(Setting::Username) == Some(o.username->0));
        law_overrides_take_effect(content, o, Setting::Username);
    }
    if o.password is Some {
        assert(o.value(Setting::Password) == Some(o.password->0));
        law_overrides_take_effect(content, o, Setting::Password);
    }
    if o.password is Some {
        assert(o.value(Setting::PasswordAgain) == Some(o.password->0));
        law_overrides_take_effect(content, o, Setting::PasswordAgain);
    }
    if o.hostname is Some {
        assert(o.value(Setting::Hostname) == Some(o.hostname->0));
        law_overrides_take_effect(content, o, Setting::Hostname);
    }
}

/// A value that was asked for is taken as it is, all of it, and no value is none.
pub proof fn law_values_are_taken_whole(value: Option<&str>)
    ensures
        value is Some ==> value_view(value) == Some((value->0)@),
        value is None ==> value_view(value) is None,
{
}

} // verus!
