//! SMTP protocol surface of the masquerade: response codes, commands, the
//! handshake states, and response builders.
//!
//! Lines are CRLF-terminated; multi-line replies follow RFC 5321 (`250-` on
//! continuation lines, `250 ` on the final line).  Command words match
//! ASCII-case-insensitively.

use vstd::prelude::*;

verus! {

use vstd::string::StringExecFns;
use vstd::string::StrSliceExecFns;
use crate::text::{spec_dec_chars, u64_to_dec_string};

/// SMTP response codes.
#[derive(Debug, Clone, Copy, PartialEq, Eq, Structural)]
pub struct ResponseCode(pub u16);

/// SMTP commands, with an extension verb that switches to binary mode.
#[derive(Debug, Clone, Copy, PartialEq, Eq, Structural)]
pub enum Command {
    Ehlo,
    Helo,
    StartTls,
    Auth,
    Mail,
    Rcpt,
    Data,
    Quit,
    Binary,
    Unknown,
}

/// SMTP handshake states.
#[derive(Debug, Clone, Copy, PartialEq, Eq, Structural)]
pub enum State {
    Initial,
    Greeted,
    TlsStarted,
    Authenticated,
    BinaryMode,
    Quit,
}

/// Whether a character is ASCII whitespace, as trimming removes it.
pub open spec fn spec_is_ws(c: char) -> bool {
    c == ' ' || c == '\t' || c == '\r' || c == '\n'
}

/// Count of leading whitespace characters.
pub open spec fn spec_trim_start(s: Seq<char>) -> int
    decreases s.len(),
{
    if s.len() == 0 {
        0
    } else if !spec_is_ws(s[0]) {
        0
    } else {
        1 + spec_trim_start(s.drop_first())
    }
}

/// Length of the sequence once trailing whitespace is dropped.
pub open spec fn spec_trim_end(s: Seq<char>) -> int
    decreases s.len(),
{
    if s.len() == 0 {
        0
    } else if !spec_is_ws(s.last()) {
        s.len() as int
    } else {
        spec_trim_end(s.drop_last())
    }
}

/// The sequence with leading and trailing ASCII whitespace removed.
pub open spec fn spec_trim(s: Seq<char>) -> Seq<char> {
    let a = spec_trim_start(s);
    let b = spec_trim_end(s);
    if 0 <= a <= b <= s.len() {
        s.subrange(a, b)
    } else {
        Seq::empty()
    }
}

proof fn lemma_trim_start_at(s: Seq<char>, i: int)
    requires
        0 <= i <= s.len(),
        forall|j: int| 0 <= j < i ==> spec_is_ws(#[trigger] s[j]),
        i < s.len() ==> !spec_is_ws(s[i]),
    ensures
        spec_trim_start(s) == i,
    decreases i,
{
    if i > 0 {
        assert(spec_is_ws(s[0]));
        assert forall|j: int| 0 <= j < i - 1 implies spec_is_ws(#[trigger] s.drop_first()[j]) by {
            assert(s.drop_first()[j] == s[j + 1]);
        }
        if i < s.len() {
            assert(s.drop_first()[i - 1] == s[i]);
        }
        lemma_trim_start_at(s.drop_first(), i - 1);
    }
}

proof fn lemma_trim_end_at(s: Seq<char>, b: int)
    requires
        0 <= b <= s.len(),
        forall|j: int| b <= j < s.len() ==> spec_is_ws(#[trigger] s[j]),
        b > 0 ==> !spec_is_ws(s[b - 1]),
    ensures
        spec_trim_end(s) == b,
    decreases s.len(),
{
    if b < s.len() {
        assert(spec_is_ws(s.last()));
        assert forall|j: int| b <= j < s.drop_last().len() implies spec_is_ws(
            #[trigger] s.drop_last()[j],
        ) by {
            assert(s.drop_last()[j] == s[j]);
        }
        if b > 0 {
            assert(s.drop_last()[b - 1] == s[b - 1]);
        }
        lemma_trim_end_at(s.drop_last(), b);
    }
}

/// The trim bounds lie within the sequence; whitespace stands before the
/// start bound and after the end bound, and nothing else does at the edges.
pub proof fn lemma_trim_props(s: Seq<char>)
    ensures
        0 <= spec_trim_start(s) <= s.len(),
        0 <= spec_trim_end(s) <= s.len(),
        forall|j: int| 0 <= j < spec_trim_start(s) ==> spec_is_ws(#[trigger] s[j]),
        spec_trim_start(s) < s.len() ==> !spec_is_ws(s[spec_trim_start(s)]),
        forall|j: int| spec_trim_end(s) <= j < s.len() ==> spec_is_ws(#[trigger] s[j]),
        spec_trim_end(s) > 0 ==> !spec_is_ws(s[spec_trim_end(s) - 1]),
    decreases s.len(),
{
    if s.len() > 0 {
        let df = s.drop_first();
        let dl = s.drop_last();
        lemma_trim_props(df);
        lemma_trim_props(dl);
        if spec_is_ws(s[0]) {
            let a = spec_trim_start(s);
            assert(a == 1 + spec_trim_start(df));
            assert forall|j: int| 0 <= j < a implies spec_is_ws(#[trigger] s[j]) by {
                if j > 0 {
                    assert(df[j - 1] == s[j]);
                }
            }
            if a < s.len() {
                assert(df[a - 1] == s[a]);
            }
        }
        if spec_is_ws(s.last()) {
            let b = spec_trim_end(s);
            assert(b == spec_trim_end(dl));
            assert forall|j: int| b <= j < s.len() implies spec_is_ws(#[trigger] s[j]) by {
                if j < s.len() - 1 {
                    assert(dl[j] == s[j]);
                }
            }
            if b > 0 {
                assert(dl[b - 1] == s[b - 1]);
            }
        }
    }
}

/// Executable check for ASCII whitespace.
pub fn is_ws(c: char) -> (r: bool)
    ensures
        r == spec_is_ws(c),
{
    c == ' ' || c == '\t' || c == '\r' || c == '\n'
}

/// Trim leading and trailing ASCII whitespace from a string.
pub fn trim_str(s: &str) -> (r: &str)
    ensures
        r@ == spec_trim(s@),
{
    let n: usize = s.unicode_len();
    let mut a: usize = 0;
    while a < n
        invariant
            0 <= a <= n,
            n == s@.len(),
            forall|j: int| 0 <= j < a ==> spec_is_ws(#[trigger] s@[j]),
        ensures
            0 <= a <= n,
            forall|j: int| 0 <= j < a ==> spec_is_ws(#[trigger] s@[j]),
            a < n ==> !spec_is_ws(s@[a as int]),
        decreases n - a,
    {
        if !is_ws(s.get_char(a)) {
            break ;
        }
        a = a + 1;
    }
    proof {
        lemma_trim_start_at(s@, a as int);
    }
    let mut b: usize = n;
    while b > a
        invariant
            a <= b <= n,
            n == s@.len(),
            forall|j: int| b <= j < n ==> spec_is_ws(#[trigger] s@[j]),
        ensures
            a <= b <= n,
            forall|j: int| b <= j < n ==> spec_is_ws(#[trigger] s@[j]),
            b > a ==> !spec_is_ws(s@[b - 1]),
        decreases b,
    {
        if !is_ws(s.get_char(b - 1)) {
            break ;
        }
        b = b - 1;
    }
    if a >= b {
        proof {
            lemma_trim_props(s@);
            if n > 0 {
                if spec_trim_end(s@) > 0 {
                    assert(spec_is_ws(s@[spec_trim_end(s@) - 1]));
                }
                assert(spec_trim_end(s@) == 0);
            }
            assert(s@.subrange(a as int, a as int) =~= Seq::<char>::empty());
        }
        let r = s.substring_char(a, a);
        proof {
            assert(r@ =~= spec_trim(s@));
        }
        r
    } else {
        proof {
            lemma_trim_end_at(s@, b as int);
        }
        s.substring_char(a, b)
    }
}

/// Index of the first occurrence of a character, or the length when absent.
pub open spec fn spec_find_char(s: Seq<char>, c: char) -> int
    decreases s.len(),
{
    if s.len() == 0 {
        0
    } else if s[0] == c {
        0
    } else {
        1 + spec_find_char(s.drop_first(), c)
    }
}

proof fn lemma_find_char_at(s: Seq<char>, c: char, i: int)
    requires
        0 <= i <= s.len(),
        forall|j: int| 0 <= j < i ==> s[j] != c,
        i < s.len() ==> s[i] == c,
    ensures
        spec_find_char(s, c) == i,
    decreases i,
{
    if i > 0 {
        assert(s[0] != c);
        assert forall|j: int| 0 <= j < i - 1 implies s.drop_first()[j] != c by {
            assert(s.drop_first()[j] == s[j + 1]);
        }
        if i < s.len() {
            assert(s.drop_first()[i - 1] == s[i]);
        }
        lemma_find_char_at(s.drop_first(), c, i - 1);
    } else if s.len() > 0 {
    }
}

/// Find the first occurrence of a character in a string.
pub fn find_char(s: &str, c: char) -> (r: usize)
    ensures
        r == spec_find_char(s@, c),
        r <= s@.len(),
    {
    let n: usize = s.unicode_len();
    let mut i: usize = 0;
    while i < n
        invariant
            0 <= i <= n,
            n == s@.len(),
            forall|j: int| 0 <= j < i ==> s@[j] != c,
        decreases n - i,
    {
        if s.get_char(i) == c {
            proof {
                lemma_find_char_at(s@, c, i as int);
            }
            return i;
        }
        i = i + 1;
    }
    proof {
        lemma_find_char_at(s@, c, n as int);
    }
    n
}

/// Whether a character matches a keyword character up to ASCII case: it is
/// the character itself or its lowercase form.
pub open spec fn spec_char_matches(c: char, k: char) -> bool {
    c == k || ((c as u32) == (k as u32) + 32 && 65 <= k as u32 <= 90)
}

/// ASCII-case-insensitive match of a string against an uppercase keyword.
pub open spec fn spec_eq_ignore_case(s: Seq<char>, kw: Seq<char>) -> bool {
    s.len() == kw.len() && forall|i: int|
        0 <= i < s.len() ==> spec_char_matches(#[trigger] s[i], kw[i])
}

/// Compare a string against an uppercase keyword, ignoring ASCII case.
pub fn eq_ignore_case(s: &str, kw: &str) -> (r: bool)
    ensures
        r == spec_eq_ignore_case(s@, kw@),
{
    let n: usize = s.unicode_len();
    let m: usize = kw.unicode_len();
    if n != m {
        return false;
    }
    let mut i: usize = 0;
    while i < n
        invariant
            0 <= i <= n,
            n == s@.len(),
            n == kw@.len(),
            forall|j: int| 0 <= j < i ==> spec_char_matches(#[trigger] s@[j], kw@[j]),
        decreases n - i,
    {
        let c: char = s.get_char(i);
        let k: char = kw.get_char(i);
        let ku: u32 = k as u32;
        let cu: u32 = c as u32;
        if !(c == k || (cu == ku + 32 && 65 <= ku && ku <= 90)) {
            return false;
        }
        i = i + 1;
    }
    true
}

/// The command a (trimmed, case-folded) word stands for.
pub open spec fn spec_command_of(w: Seq<char>) -> Command {
    if spec_eq_ignore_case(w, "EHLO"@) {
        Command::Ehlo
    } else if spec_eq_ignore_case(w, "HELO"@) {
        Command::Helo
    } else if spec_eq_ignore_case(w, "STARTTLS"@) {
        Command::StartTls
    } else if spec_eq_ignore_case(w, "AUTH"@) {
        Command::Auth
    } else if spec_eq_ignore_case(w, "MAIL"@) {
        Command::Mail
    } else if spec_eq_ignore_case(w, "RCPT"@) {
        Command::Rcpt
    } else if spec_eq_ignore_case(w, "DATA"@) {
        Command::Data
    } else if spec_eq_ignore_case(w, "QUIT"@) {
        Command::Quit
    } else if spec_eq_ignore_case(w, "BINARY"@) {
        Command::Binary
    } else {
        Command::Unknown
    }
}

/// The command word of a trimmed line: everything before the first space.
pub open spec fn spec_line_word(t: Seq<char>) -> Seq<char> {
    t.take(spec_find_char(t, ' '))
}

/// The argument of a trimmed line: everything after the first space,
/// trimmed; empty when there is no space.
pub open spec fn spec_line_arg(t: Seq<char>) -> Seq<char> {
    let i = spec_find_char(t, ' ');
    if i < t.len() {
        spec_trim(t.skip(i + 1))
    } else {
        Seq::empty()
    }
}

impl Command {
    /// Parse a line into its command and its argument.
    pub fn parse(s: &str) -> (r: (Command, &str))
        ensures
            r.0 == spec_command_of(spec_line_word(spec_trim(s@))),
            r.1@ == spec_line_arg(spec_trim(s@)),
    {
        let t: &str = trim_str(s);
        let n: usize = t.unicode_len();
        let sp: usize = find_char(t, ' ');
        let word: &str = t.substring_char(0, sp);
        let rest: &str = if sp < n {
            trim_str(t.substring_char(sp + 1, n))
        } else {
            let e = t.substring_char(n, n);
            proof {
                assert(e@ =~= Seq::<char>::empty());
            }
            e
        };
        proof {
            assert(t@.skip(spec_find_char(t@, ' ') + 1) =~= t@.subrange(
                spec_find_char(t@, ' ') + 1,
                t@.len() as int,
            ));
        }
        let command: Command = if eq_ignore_case(word, "EHLO") {
            Command::Ehlo
        } else if eq_ignore_case(word, "HELO") {
            Command::Helo
        } else if eq_ignore_case(word, "STARTTLS") {
            Command::StartTls
        } else if eq_ignore_case(word, "AUTH") {
            Command::Auth
        } else if eq_ignore_case(word, "MAIL") {
            Command::Mail
        } else if eq_ignore_case(word, "RCPT") {
            Command::Rcpt
        } else if eq_ignore_case(word, "DATA") {
            Command::Data
        } else if eq_ignore_case(word, "QUIT") {
            Command::Quit
        } else if eq_ignore_case(word, "BINARY") {
            Command::Binary
        } else {
            Command::Unknown
        };
        (command, rest)
    }
}

/// Parse an SMTP line, returning its command and argument, or nothing for a
/// blank line.
pub fn parse_line(line: &str) -> (r: Option<(Command, String)>)
    ensures
        spec_trim(line@).len() == 0 ==> r is None,
        spec_trim(line@).len() > 0 ==> (r matches Some(p) && p.0 == spec_command_of(
            spec_line_word(spec_trim(line@)),
        ) && p.1@ == spec_line_arg(spec_trim(line@))),
{
    let t: &str = trim_str(line);
    if t.unicode_len() == 0 {
        return None;
    }
    let (cmd, arg) = Command::parse(t);
    proof {
        lemma_trim_idempotent(line@);
    }
    Some((cmd, String::from_str(arg)))
}

/// Trimming is idempotent.
pub proof fn lemma_trim_idempotent(s: Seq<char>)
    ensures
        spec_trim(spec_trim(s)) == spec_trim(s),
{
    lemma_trim_props(s);
    let t = spec_trim(s);
    let a = spec_trim_start(s);
    let b = spec_trim_end(s);
    if a <= b {
        if t.len() > 0 {
            assert(t[0] == s[a]);
            assert(t[t.len() - 1] == s[b - 1]);
            lemma_trim_start_at(t, 0);
            lemma_trim_end_at(t, t.len() as int);
            assert(t.subrange(0, t.len() as int) =~= t);
        } else {
            lemma_trim_start_at(t, 0);
            lemma_trim_end_at(t, 0);
        }
    } else {
        lemma_trim_start_at(Seq::<char>::empty(), 0);
        lemma_trim_end_at(Seq::<char>::empty(), 0);
    }
}

/// One CRLF-terminated SMTP reply line: `code SP message CRLF`.
pub open spec fn spec_response(code: u16, message: Seq<char>) -> Seq<char> {
    spec_dec_chars(code as nat) + " "@ + message + "\r\n"@
}

/// One continuation reply line: `code "-" message CRLF`.
pub open spec fn spec_response_cont(code: u16, message: Seq<char>) -> Seq<char> {
    spec_dec_chars(code as nat) + "-"@ + message + "\r\n"@
}

/// A multi-line reply: every line but the last is a continuation line.
pub open spec fn spec_multi_line(code: u16, lines: Seq<Seq<char>>) -> Seq<char>
    decreases lines.len(),
{
    if lines.len() == 0 {
        spec_response(code, Seq::empty())
    } else if lines.len() == 1 {
        spec_response(code, lines[0])
    } else {
        spec_response_cont(code, lines[0]) + spec_multi_line(code, lines.drop_first())
    }
}

/// SMTP response builder.
pub struct Response;

impl Response {
    /// Create a simple response line.
    pub fn new(code: ResponseCode, message: &str) -> (r: String)
        ensures
            r@ == spec_response(code.0, message@),
    {
        let mut s: String = u64_to_dec_string(code.0 as u64);
        s.append(" ");
        s.append(message);
        s.append("\r\n");
        proof {
            assert(s@ =~= spec_response(code.0, message@));
        }
        s
    }

    /// Create a multi-line response; the last line has a space after the
    /// code, the earlier lines a dash.
    pub fn multi_line(code: ResponseCode, lines: &[&str]) -> (r: String)
        ensures
            r@ == spec_multi_line(code.0, lines.deep_view()),
        decreases lines@.len(),
    {
        let n: usize = lines.len();
        if n == 0 {
            let r = Response::new(code, "");
            proof {
                reveal_strlit("");
                assert(""@ =~= Seq::<char>::empty());
            }
            r
        } else if n == 1 {
            Response::new(code, lines[0])
        } else {
            let mut s: String = u64_to_dec_string(code.0 as u64);
            s.append("-");
            s.append(lines[0]);
            s.append("\r\n");
            let sub: &[&str] = vstd::slice::slice_subrange(lines, 1, n);
            let rest: String = Response::multi_line(code, sub);
            s.append(rest.as_str());
            proof {
                let lv = lines.deep_view();
                assert forall|i: int| 0 <= i < sub@.len() implies sub.deep_view()[i]
                    == lv.drop_first()[i] by {
                    assert(sub@[i] == lines@[i + 1]);
                }
                assert(sub.deep_view() =~= lv.drop_first());
                assert(s@ =~= spec_multi_line(code.0, lv));
            }
            s
        }
    }

    /// The greeting line.
    pub fn greeting(hostname: &str) -> (r: String)
        ensures
            r@ == spec_response(220, hostname@ + " ESMTP Postfix (Ubuntu)"@),
    {
        let mut m: String = String::from_str(hostname);
        m.append(" ESMTP Postfix (Ubuntu)");
        Response::new(ResponseCode(220), m.as_str())
    }

    /// The EHLO capability listing; STARTTLS is advertised only before TLS.
    pub fn ehlo(hostname: &str, starttls: bool) -> (r: String)
        ensures
            starttls ==> r@ == spec_multi_line(
                250,
                seq![hostname@, "STARTTLS"@, "AUTH PLAIN LOGIN"@, "8BITMIME"@],
            ),
            !starttls ==> r@ == spec_multi_line(
                250,
                seq![hostname@, "AUTH PLAIN LOGIN"@, "8BITMIME"@],
            ),
    {
        let mut lines: Vec<&str> = Vec::new();
        lines.push(hostname);
        if starttls {
            lines.push("STARTTLS");
        }
        lines.push("AUTH PLAIN LOGIN");
        lines.push("8BITMIME");
        let sl: &[&str] = lines.as_slice();
        let r = Response::multi_line(ResponseCode(250), sl);
        proof {
            if starttls {
                assert(sl.deep_view() =~= seq![
                    hostname@,
                    "STARTTLS"@,
                    "AUTH PLAIN LOGIN"@,
                    "8BITMIME"@,
                ]);
            } else {
                assert(sl.deep_view() =~= seq![hostname@, "AUTH PLAIN LOGIN"@, "8BITMIME"@]);
            }
        }
        r
    }

    /// The STARTTLS go-ahead.
    pub fn starttls() -> (r: String)
        ensures
            r@ == spec_response(220, "2.0.0 Ready to start TLS"@),
    {
        Response::new(ResponseCode(220), "2.0.0 Ready to start TLS")
    }

    /// Authentication succeeded.
    pub fn auth_success() -> (r: String)
        ensures
            r@ == spec_response(235, "2.7.0 Authentication successful"@),
    {
        Response::new(ResponseCode(235), "2.7.0 Authentication successful")
    }

    /// Authentication failed.
    pub fn auth_failed() -> (r: String)
        ensures
            r@ == spec_response(535, "5.7.8 Authentication failed"@),
    {
        Response::new(ResponseCode(535), "5.7.8 Authentication failed")
    }

    /// Binary mode activated.
    pub fn binary_mode() -> (r: String)
        ensures
            r@ == spec_response(299, "Binary mode activated"@),
    {
        Response::new(ResponseCode(299), "Binary mode activated")
    }

    /// Goodbye.
    pub fn goodbye() -> (r: String)
        ensures
            r@ == spec_response(221, "Bye"@),
    {
        Response::new(ResponseCode(221), "Bye")
    }

    /// Syntax error.
    pub fn syntax_error() -> (r: String)
        ensures
            r@ == spec_response(500, "Syntax error"@),
    {
        Response::new(ResponseCode(500), "Syntax error")
    }

    /// Command not recognized.
    pub fn command_unrecognized() -> (r: String)
        ensures
            r@ == spec_response(502, "Command not recognized"@),
    {
        Response::new(ResponseCode(502), "Command not recognized")
    }

    /// Bad sequence of commands.
    pub fn bad_sequence() -> (r: String)
        ensures
            r@ == spec_response(503, "Bad sequence of commands"@),
    {
        Response::new(ResponseCode(503), "Bad sequence of commands")
    }

    /// Authentication required.
    pub fn auth_required() -> (r: String)
        ensures
            r@ == spec_response(530, "Authentication required"@),
    {
        Response::new(ResponseCode(530), "Authentication required")
    }
}

/// Index of the first CRLF pair, or the length when there is none.
pub open spec fn spec_find_crlf(b: Seq<u8>) -> int
    decreases b.len(),
{
    if b.len() < 2 {
        b.len() as int
    } else if b[0] == 13 && b[1] == 10 {
        0
    } else {
        1 + spec_find_crlf(b.drop_first())
    }
}

proof fn lemma_find_crlf_at(b: Seq<u8>, i: int)
    requires
        0 <= i,
        i + 1 < b.len(),
        forall|j: int| 0 <= j < i ==> !((#[trigger] b[j]) == 13 && b[j + 1] == 10),
        b[i] == 13 && b[i + 1] == 10,
    ensures
        spec_find_crlf(b) == i,
    decreases i,
{
    if i > 0 {
        assert(!(b[0] == 13 && b[1] == 10));
        assert forall|j: int| 0 <= j < i - 1 implies !((#[trigger] b.drop_first()[j]) == 13
            && b.drop_first()[j + 1] == 10) by {
            assert(b.drop_first()[j] == b[j + 1]);
            assert(b.drop_first()[j + 1] == b[j + 2]);
        }
        assert(b.drop_first()[i - 1] == b[i]);
        assert(b.drop_first()[i] == b[i + 1]);
        lemma_find_crlf_at(b.drop_first(), i - 1);
    }
}

proof fn lemma_find_crlf_none(b: Seq<u8>)
    requires
        forall|j: int| 0 <= j && j + 1 < b.len() ==> !((#[trigger] b[j]) == 13 && b[j + 1] == 10),
    ensures
        spec_find_crlf(b) >= b.len() - 1,
    decreases b.len(),
{
    if b.len() >= 2 {
        assert forall|j: int| 0 <= j && j + 1 < b.drop_first().len() implies !((
        #[trigger] b.drop_first()[j]) == 13 && b.drop_first()[j + 1] == 10) by {
            assert(b.drop_first()[j] == b[j + 1]);
            assert(b.drop_first()[j + 1] == b[j + 2]);
        }
        lemma_find_crlf_none(b.drop_first());
    }
}

/// Longest accepted line, in bytes, its CRLF not counted.
pub const MAX_LINE_BYTES: usize = 1024;

/// Outcome of taking a line off a buffer.
#[derive(Debug)]
pub enum LineResult {
    /// A complete line, without its CRLF.
    Line(Vec<u8>),
    /// No complete line is buffered yet.
    Pending,
    /// The buffered line exceeds [`MAX_LINE_BYTES`]; the connection is to
    /// be dropped.
    Overlong,
}

/// Split the first CRLF-terminated line off the front of the buffer.
///
/// Returns the line without its CRLF and removes it, terminator included,
/// from the buffer.  When no CRLF is buffered yet the buffer is left as it
/// is: `Pending` while a line within the length bound can still complete,
/// `Overlong` once the line is longer than [`MAX_LINE_BYTES`], terminated
/// or not.
pub fn take_line(buf: &mut Vec<u8>) -> (r: LineResult)
    ensures
        ({
            let i = spec_find_crlf(old(buf)@);
            match r {
                LineResult::Line(line) => {
                    &&& i + 1 < old(buf)@.len()
                    &&& i <= MAX_LINE_BYTES
                    &&& line@ == old(buf)@.take(i)
                    &&& final (buf)@ == old(buf)@.skip(i + 2)
                },
                LineResult::Pending => {
                    &&& i + 1 >= old(buf)@.len()
                    &&& old(buf)@.len() <= MAX_LINE_BYTES + 1
                    &&& final (buf)@ == old(buf)@
                },
                LineResult::Overlong => {
                    &&& (i + 1 < old(buf)@.len() && i > MAX_LINE_BYTES) || (i + 1 >= old(
                        buf,
                    )@.len() && old(buf)@.len() > MAX_LINE_BYTES + 1)
                    &&& final (buf)@ == old(buf)@
                },
            }
        }),
{
    let n: usize = buf.len();
    if n < 2 {
        proof {
            if n == 1 {
                lemma_find_crlf_none(buf@);
            }
        }
        return LineResult::Pending;
    }
    let mut i: usize = 0;
    while i + 1 < n
        invariant
            0 <= i,
            i + 1 <= n,
            n == buf@.len(),
            buf@ == old(buf)@,
            forall|j: int| 0 <= j < i ==> !((#[trigger] buf@[j]) == 13 && buf@[j + 1] == 10),
        decreases n - i,
    {
        if buf[i] == 13 && buf[i + 1] == 10 {
            proof {
                lemma_find_crlf_at(buf@, i as int);
            }
            if i > MAX_LINE_BYTES {
                return LineResult::Overlong;
            }
            let tail: Vec<u8> = buf.split_off(i + 2);
            let mut line: Vec<u8> = Vec::new();
            let mut k: usize = 0;
            while k < i
                invariant
                    0 <= k <= i,
                    i + 2 <= old(buf)@.len(),
                    spec_find_crlf(old(buf)@) == i,
                    buf@ == old(buf)@.subrange(0, i as int + 2),
                    tail@ == old(buf)@.subrange(i as int + 2, old(buf)@.len() as int),
                    line@ == buf@.take(k as int),
                decreases i - k,
            {
                line.push(buf[k]);
                proof {
                    assert(line@ =~= buf@.take(k as int + 1));
                }
                k = k + 1;
            }
            proof {
                assert(line@ =~= old(buf)@.take(i as int));
                assert(tail@ =~= old(buf)@.skip(i as int + 2));
            }
            *buf = tail;
            return LineResult::Line(line);
        }
        i = i + 1;
    }
    proof {
        lemma_find_crlf_none(buf@);
    }
    if n > MAX_LINE_BYTES + 1 {
        LineResult::Overlong
    } else {
        LineResult::Pending
    }
}

} // verus!
