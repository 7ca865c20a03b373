//! The cookie-jar parser: Netscape-format cookie files, as curl writes them,
//! read into cookie records.
use vstd::prelude::*;

verus! {

/// The pieces of `s` between occurrences of `sep`, in order; there is always at
/// least one piece, and `k` separators give `k + 1` pieces.
pub open spec fn split_on(s: Seq<char>, sep: char) -> Seq<Seq<char>>
    decreases s.len(),
{
    if s.len() == 0 {
        seq![Seq::<char>::empty()]
    } else {
        let init = split_on(s.drop_last(), sep);
        if s.last() == sep {
            init.push(Seq::<char>::empty())
        } else {
            init.update(init.len() - 1, init.last().push(s.last()))
        }
    }
}

/// Splitting never gives an empty list of pieces.
pub proof fn lemma_split_on_nonempty(s: Seq<char>, sep: char)
    ensures
        split_on(s, sep).len() >= 1,
    decreases s.len(),
{
    if s.len() > 0 {
        lemma_split_on_nonempty(s.drop_last(), sep);
    }
}

/// The characters of `s`, in order.
fn chars_of(s: &str) -> (r: Vec<char>)
    ensures
        r@ == s@,
{
    let mut out: Vec<char> = Vec::new();
    for c in it: s.chars()
        invariant
            it.seq() == s@,
            out@ == s@.take(it.index() as int),
    {
        out.push(c);
    }
    assert(out@ =~= s@);
    out
}

/// The texts of a list of strings.
pub open spec fn views(v: Seq<String>) -> Seq<Seq<char>> {
    v.map_values(|p: String| p@)
}

/// Splits `s` at every `sep`; the separators are dropped.
pub fn split_chars(s: &str, sep: char) -> (r: Vec<String>)
    ensures
        views(r@) == split_on(s@, sep),
{
    let cs = chars_of(s);
    let n = cs.len();
    let mut out: Vec<String> = Vec::new();
    let mut start: usize = 0;
    let mut i: usize = 0;
    assert(s@.take(0) =~= Seq::<char>::empty());
    assert(views(out@).push(s@.subrange(0, 0)) =~= split_on(s@.take(0), sep));
    while i < n
        invariant
            cs@ == s@,
            n == s@.len(),
            start <= i <= n,
            views(out@).push(s@.subrange(start as int, i as int)) == split_on(s@.take(i as int), sep),
        decreases n - i,
    {
        let ghost prev = views(out@).push(s@.subrange(start as int, i as int));
        assert(s@.take(i + 1).drop_last() =~= s@.take(i as int));
        assert(s@.take(i + 1).last() == s@[i as int]);
        if cs[i] == sep {
            let piece = s.substring_char(start, i);
            out.push(String::from_str(piece));
            start = i + 1;
            assert(views(out@) =~= prev);
            assert(s@.subrange(start as int, i + 1) =~= Seq::<char>::empty());
            assert(views(out@).push(s@.subrange(start as int, i + 1)) =~= prev.push(
                Seq::<char>::empty(),
            ));
        } else {
            assert(s@.subrange(start as int, i + 1) =~= s@.subrange(start as int, i as int).push(
                s@[i as int],
            ));
            assert(views(out@).push(s@.subrange(start as int, i + 1)) =~= prev.update(
                prev.len() - 1,
                prev.last().push(s@[i as int]),
            ));
        }
        i = i + 1;
    }
    let piece = s.substring_char(start, n);
    out.push(String::from_str(piece));
    assert(s@.take(n as int) =~= s@);
    assert(views(out@) =~= split_on(s@, sep));
    out
}


/// `x` without one trailing carriage return, if it has one.
pub open spec fn strip_cr(x: Seq<char>) -> Seq<char> {
    if x.len() > 0 && x.last() == '\r' {
        x.drop_last()
    } else {
        x
    }
}

/// The lines of `s`: it is split at each line feed, a carriage return that
/// stands right before a line feed is dropped, and a final line feed does not
/// start another line (so empty text has no lines).
pub open spec fn lines_of(s: Seq<char>) -> Seq<Seq<char>> {
    let p = split_on(s, '\n');
    let head = Seq::new((p.len() - 1) as nat, |k: int| strip_cr(p[k]));
    if p.last().len() == 0 {
        head
    } else {
        head.push(p.last())
    }
}

fn strip_cr_exec(x: &String) -> (r: String)
    ensures
        r@ == strip_cr(x@),
{
    let s = x.as_str();
    let n = s.unicode_len();
    if n > 0 && s.get_char(n - 1) == '\r' {
        String::from_str(s.substring_char(0, n - 1))
    } else {
        String::from_str(s)
    }
}

/// Splits text into lines the way `str::lines` does.
pub fn split_lines(s: &str) -> (r: Vec<String>)
    ensures
        views(r@) == lines_of(s@),
{
    let pieces = split_chars(s, '\n');
    proof {
        lemma_split_on_nonempty(s@, '\n');
    }
    let n = pieces.len();
    let ghost p = split_on(s@, '\n');
    let mut out: Vec<String> = Vec::new();
    let mut k: usize = 0;
    while k + 1 < n
        invariant
            n == pieces.len(),
            n >= 1,
            k + 1 <= n,
            views(pieces@) == p,
            views(out@) =~= Seq::new(k as nat, |j: int| strip_cr(p[j])),
        decreases n - k,
    {
        let line = strip_cr_exec(&pieces[k]);
        assert(p[k as int] == pieces@[k as int]@);
        let ghost before = out@;
        out.push(line);
        assert(views(out@) =~= views(before).push(line@));
        k = k + 1;
    }
    if !pieces[n - 1].as_str().is_empty() {
        out.push(pieces[n - 1].clone());
    }
    assert(views(out@) =~= lines_of(s@));
    out
}

/// How a cookie line sets the SameSite policy of its cookie.
#[derive(Clone, Copy, Debug, PartialEq, Eq, Structural)]
pub enum SameSite {
    Strict,
    Lax,
}

/// One cookie of a cookie file. `expires` is the expiry field as written,
/// seconds since the epoch.
#[derive(Clone, Debug)]
pub struct CookieRecord {
    pub domain: String,
    pub same_site: SameSite,
    pub path: String,
    pub http_only: bool,
    pub expires: String,
    pub name: String,
    pub value: String,
}

/// A cookie as text values.
pub struct CookieView {
    pub domain: Seq<char>,
    pub same_site: SameSite,
    pub path: Seq<char>,
    pub http_only: bool,
    pub expires: Seq<char>,
    pub name: Seq<char>,
    pub value: Seq<char>,
}

impl View for CookieRecord {
    type V = CookieView;

    open spec fn view(&self) -> CookieView {
        CookieView {
            domain: self.domain@,
            same_site: self.same_site,
            path: self.path@,
            http_only: self.http_only,
            expires: self.expires@,
            name: self.name@,
            value: self.value@,
        }
    }
}

pub open spec fn cookie_views(v: Seq<CookieRecord>) -> Seq<CookieView> {
    v.map_values(|c: CookieRecord| c@)
}

/// Why a cookie file was refused.
#[derive(Clone, Debug)]
pub struct CookieFileParseError {
    pub error_message: String,
}

impl CookieFileParseError {
    pub fn new(error_message: String) -> (r: CookieFileParseError)
        ensures
            r.error_message@ == error_message@,
    {
        CookieFileParseError { error_message }
    }

    /// The error as a sentence for the user.
    pub fn message(&self) -> (r: String)
        ensures
            r@ == "Error parsing Cookie file: "@ + self.error_message@,
    {
        let mut r = String::from_str("Error parsing Cookie file: ");
        r.append(self.error_message.as_str());
        r
    }
}

/// The prefix that marks an http-only cookie on a line that would otherwise
/// read as a comment.
pub open spec fn http_only_marker() -> Seq<char> {
    seq!['#', 'H', 't', 't', 'p', 'O', 'n', 'l', 'y', '_']
}

pub open spec fn true_flag() -> Seq<char> {
    seq!['T', 'R', 'U', 'E']
}

pub open spec fn has_marker(line: Seq<char>) -> bool {
    line.len() >= 10 && line.take(10) == http_only_marker()
}

/// Comments carry no cookie. A blank line is no comment: it is a line of one
/// field, and so refused.
pub open spec fn is_skipped(line: Seq<char>) -> bool {
    line.len() > 0 && line[0] == '#' && !has_marker(line)
}

/// The line without its http-only marker.
pub open spec fn body_of(line: Seq<char>) -> Seq<char> {
    if has_marker(line) {
        line.skip(10)
    } else {
        line
    }
}

pub open spec fn fields_of(line: Seq<char>) -> Seq<Seq<char>> {
    split_on(body_of(line), '\t')
}

pub open spec fn record_of(line: Seq<char>) -> CookieView {
    let f = fields_of(line);
    CookieView {
        domain: f[0],
        same_site: if f[1] == true_flag() {
            SameSite::Strict
        } else {
            SameSite::Lax
        },
        path: f[2],
        http_only: has_marker(line) || f[3] == true_flag(),
        expires: f[4],
        name: f[5],
        value: f[6],
    }
}

pub open spec fn field_count_message(line: Seq<char>) -> Seq<char> {
    "Error parsing cookie line (Wrong number of arguments): '"@ + body_of(line) + "'"@
}

/// What one line gives: nothing, a cookie, or the message of a refusal.
pub open spec fn parse_line(line: Seq<char>) -> Result<Option<CookieView>, Seq<char>> {
    if is_skipped(line) {
        Ok(None)
    } else if fields_of(line).len() != 7 {
        Err(field_count_message(line))
    } else {
        Ok(Some(record_of(line)))
    }
}

/// The cookies of `ls` in order, or the message for the first line refused.
pub open spec fn parse_lines(ls: Seq<Seq<char>>) -> Result<Seq<CookieView>, Seq<char>>
    decreases ls.len(),
{
    if ls.len() == 0 {
        Ok(Seq::empty())
    } else {
        match parse_lines(ls.drop_last()) {
            Err(e) => Err(e),
            Ok(done) => match parse_line(ls.last()) {
                Err(e) => Err(e),
                Ok(None) => Ok(done),
                Ok(Some(c)) => Ok(done.push(c)),
            },
        }
    }
}

pub open spec fn parse_cookies(s: Seq<char>) -> Result<Seq<CookieView>, Seq<char>> {
    parse_lines(lines_of(s))
}

fn has_marker_exec(cs: &Vec<char>) -> (r: bool)
    ensures
        r == has_marker(cs@),
{
    let r = cs.len() >= 10 && cs[0] == '#' && cs[1] == 'H' && cs[2] == 't' && cs[3] == 't'
        && cs[4] == 'p' && cs[5] == 'O' && cs[6] == 'n' && cs[7] == 'l' && cs[8] == 'y'
        && cs[9] == '_';
    proof {
        if cs.len() >= 10 {
            if r {
                assert(cs@.take(10) =~= http_only_marker());
            } else {
                if cs@.take(10) == http_only_marker() {
                    let t = cs@.take(10);
                    assert(t[0] == '#' && t[1] == 'H' && t[2] == 't' && t[3] == 't' && t[4] == 'p');
                    assert(t[5] == 'O' && t[6] == 'n' && t[7] == 'l' && t[8] == 'y' && t[9] == '_');
                }
            }
        }
    }
    r
}

/// Reads one line of a cookie file: `Ok(None)` for a comment, the cookie for a
/// line of seven tab-separated fields, and an error naming the line for any
/// other, a blank line included.
pub fn parse_cookie_line(line: &str) -> (r: Result<Option<CookieRecord>, CookieFileParseError>)
    ensures
        match r {
            Ok(None) => parse_line(line@) == Ok::<Option<CookieView>, Seq<char>>(None),
            Ok(Some(c)) => parse_line(line@) == Ok::<Option<CookieView>, Seq<char>>(Some(c@)),
            Err(e) => parse_line(line@) == Err::<Option<CookieView>, Seq<char>>(e.error_message@),
        },
{
    let cs = chars_of(line);
    let n = cs.len();
    let marked = has_marker_exec(&cs);
    if n > 0 && cs[0] == '#' && !marked {
        return Ok(None);
    }
    let body = if marked {
        line.substring_char(10, n)
    } else {
        line
    };
    assert(body@ == body_of(line@));
    let fields = split_chars(body, '\t');
    if fields.len() != 7 {
        let mut msg = String::from_str("Error parsing cookie line (Wrong number of arguments): '");
        msg.append(body);
        msg.append("'");
        return Err(CookieFileParseError::new(msg));
    }
    assert(forall|i: int| 0 <= i < 7 ==> fields@[i]@ == fields_of(line@)[i]) by {
        assert(forall|i: int| 0 <= i < 7 ==> views(fields@)[i] == fields@[i]@);
    }
    let flag = String::from_str("TRUE");
    proof {
        reveal_strlit("TRUE");
        assert(flag@ =~= true_flag());
    }
    let same_site = if fields[1].eq(&flag) {
        SameSite::Strict
    } else {
        SameSite::Lax
    };
    let http_only = marked || fields[3].eq(&flag);
    let c = CookieRecord {
        domain: fields[0].clone(),
        same_site,
        path: fields[2].clone(),
        http_only,
        expires: fields[4].clone(),
        name: fields[5].clone(),
        value: fields[6].clone(),
    };
    assert(c@ == record_of(line@));
    Ok(Some(c))
}

/// Once a prefix of the lines is refused, the whole file is refused with the
/// same message.
proof fn lemma_error_persists(ls: Seq<Seq<char>>, j: int, e: Seq<char>)
    requires
        0 <= j <= ls.len(),
        parse_lines(ls.take(j)) == Err::<Seq<CookieView>, Seq<char>>(e),
    ensures
        parse_lines(ls) == Err::<Seq<CookieView>, Seq<char>>(e),
    decreases ls.len(),
{
    if j == ls.len() {
        assert(ls.take(j) =~= ls);
    } else {
        assert(ls.drop_last().take(j) =~= ls.take(j));
        lemma_error_persists(ls.drop_last(), j, e);
    }
}

/// Reads a cookie file in the Netscape format: one cookie for each line that is
/// not a comment, in the order of the lines. The first line that is no comment
/// and does not hold seven tab-separated fields (a blank line among them) fails
/// the whole file. A final line feed ends the last line and starts none.
pub fn parse_cookie_file(file_contents: &str) -> (r: Result<Vec<CookieRecord>, CookieFileParseError>)
    ensures
        r is Ok ==> parse_cookies(file_contents@) == Ok::<Seq<CookieView>, Seq<char>>(
            cookie_views(r->Ok_0@),
        ),
        r is Err ==> parse_cookies(file_contents@) == Err::<Seq<CookieView>, Seq<char>>(
            r->Err_0.error_message@,
        ),
{
    let lines = split_lines(file_contents);
    let ghost ls = lines_of(file_contents@);
    let mut cookies: Vec<CookieRecord> = Vec::new();
    let mut i: usize = 0;
    assert(ls.take(0) =~= Seq::<Seq<char>>::empty());
    assert(cookie_views(cookies@) =~= Seq::<CookieView>::empty());
    while i < lines.len()
        invariant
            ls == lines_of(file_contents@),
            views(lines@) == ls,
            i <= lines.len(),
            parse_lines(ls.take(i as int)) == Ok::<Seq<CookieView>, Seq<char>>(
                cookie_views(cookies@),
            ),
        decreases lines.len() - i,
    {
        assert(ls.take(i + 1).drop_last() =~= ls.take(i as int));
        assert(views(lines@)[i as int] == lines@[i as int]@);
        assert(ls.take(i + 1).last() == lines@[i as int]@);
        match parse_cookie_line(lines[i].as_str()) {
            Err(e) => {
                proof {
                    assert(parse_lines(ls.take(i + 1)) == Err::<Seq<CookieView>, Seq<char>>(
                        e.error_message@,
                    ));
                    lemma_error_persists(ls, i + 1, e.error_message@);
                }
                return Err(e);
            },
            Ok(None) => {},
            Ok(Some(c)) => {
                let ghost before = cookies@;
                cookies.push(c);
                assert(cookie_views(cookies@) =~= cookie_views(before).push(c@));
            },
        }
        i = i + 1;
    }
    assert(ls.take(i as int) =~= ls);
    Ok(cookies)
}

/// A line that is a comment, or seven tab-separated fields.
pub open spec fn well_formed_line(line: Seq<char>) -> bool {
    is_skipped(line) || fields_of(line).len() == 7
}

/// The lines that carry a cookie.
pub open spec fn data_lines(ls: Seq<Seq<char>>) -> Seq<Seq<char>> {
    ls.filter(|l: Seq<char>| !is_skipped(l))
}

proof fn lemma_well_formed_lines(ls: Seq<Seq<char>>)
    requires
        forall|k: int| 0 <= k < ls.len() ==> well_formed_line(#[trigger] ls[k]),
    ensures
        parse_lines(ls) == Ok::<Seq<CookieView>, Seq<char>>(
            data_lines(ls).map_values(|l: Seq<char>| record_of(l)),
        ),
    decreases ls.len(),
{
    reveal(Seq::filter);
    if ls.len() > 0 {
        let init = ls.drop_last();
        assert(forall|k: int| 0 <= k < init.len() ==> init[k] == ls[k]);
        lemma_well_formed_lines(init);
        assert(well_formed_line(ls[ls.len() - 1]));
        let prev = data_lines(init).map_values(|l: Seq<char>| record_of(l));
        if !is_skipped(ls.last()) {
            assert(data_lines(ls) == data_lines(init).push(ls.last()));
            assert(data_lines(ls).map_values(|l: Seq<char>| record_of(l)) =~= prev.push(
                record_of(ls.last()),
            ));
        } else {
            assert(data_lines(ls) == data_lines(init));
        }
    } else {
        assert(data_lines(ls).map_values(|l: Seq<char>| record_of(l)) =~= Seq::<
            CookieView,
        >::empty());
    }
}

/// A file in which every line is a comment or seven tab-separated fields is
/// accepted, and gives one cookie per line that is not a comment, in the order
/// of the lines; a line with the http-only marker gives an
/// http-only cookie whatever its fourth field says.
pub proof fn lemma_well_formed_file(s: Seq<char>)
    requires
        forall|k: int| 0 <= k < lines_of(s).len() ==> well_formed_line(#[trigger] lines_of(s)[k]),
    ensures
        parse_cookies(s) == Ok::<Seq<CookieView>, Seq<char>>(
            data_lines(lines_of(s)).map_values(|l: Seq<char>| record_of(l)),
        ),
        forall|k: int|
            0 <= k < data_lines(lines_of(s)).len() && has_marker(
                #[trigger] data_lines(lines_of(s))[k],
            ) ==> (parse_cookies(s)->Ok_0)[k].http_only,
{
    lemma_well_formed_lines(lines_of(s));
}

/// A file with a line that is not a comment (a blank line included) and does
/// not hold exactly seven tab-separated fields is refused as a whole: no cookie
/// comes out of it.
pub proof fn lemma_bad_line_fails(s: Seq<char>, k: int)
    requires
        0 <= k < lines_of(s).len(),
        !is_skipped(lines_of(s)[k]),
        fields_of(lines_of(s)[k]).len() != 7,
    ensures
        parse_cookies(s) is Err,
{
    let ls = lines_of(s);
    assert(ls.take(k + 1).drop_last() =~= ls.take(k));
    assert(ls.take(k + 1).last() == ls[k]);
    let e = match parse_lines(ls.take(k + 1)) {
        Err(e) => e,
        Ok(_) => Seq::empty(),
    };
    assert(parse_lines(ls.take(k + 1)) is Err);
    lemma_error_persists(ls, k + 1, e);
}

} // verus!
