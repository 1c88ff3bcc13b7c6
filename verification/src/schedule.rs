//! The launchd schedule: parsing the `--every` interval and rendering the
//! LaunchAgent property list, plus the small decisions around `launchctl`.

use vstd::prelude::*;
use crate::logging::{last_containing, last_line_containing, lines};
use crate::paths::{join, join_path};
use crate::text::{
    all_whitespace, is_whitespace, lemma_decimal_digits, lemma_trim_ignores_surrounding_whitespace, trim_end, trim_start,
    contains, occurs_at, str_contains,
    chars_of, decimal, push_char, push_decimal, push_str, digit_value, digits_value, is_ascii_digit, string_from_range, trim, trim_bounds,
};

verus! {

/// Why an `--every` value was refused.
pub enum EveryError {
    /// Nothing but whitespace.
    Empty,
    /// No digits before the unit; holds the trimmed input.
    MissingNumber(String),
    /// The digits do not fit in a `u64`; holds the trimmed input.
    BadNumber(String),
    /// Digits without a unit; holds the trimmed input.
    MissingUnit(String),
    /// A unit other than `s`, `m`, `h`, `d`; holds that unit.
    UnknownUnit(String),
    /// The number of seconds does not fit in a `u64`.
    TooLarge,
    /// The interval is zero.
    Zero,
    /// The interval is shorter than one minute.
    TooShort,
}

/// The mathematical content of an [`EveryError`].
pub enum EveryFault {
    Empty,
    MissingNumber(Seq<char>),
    BadNumber(Seq<char>),
    MissingUnit(Seq<char>),
    UnknownUnit(Seq<char>),
    TooLarge,
    Zero,
    TooShort,
}

impl View for EveryError {
    type V = EveryFault;

    open spec fn view(&self) -> EveryFault {
        match self {
            EveryError::Empty => EveryFault::Empty,
            EveryError::MissingNumber(s) => EveryFault::MissingNumber(s@),
            EveryError::BadNumber(s) => EveryFault::BadNumber(s@),
            EveryError::MissingUnit(s) => EveryFault::MissingUnit(s@),
            EveryError::UnknownUnit(s) => EveryFault::UnknownUnit(s@),
            EveryError::TooLarge => EveryFault::TooLarge,
            EveryError::Zero => EveryFault::Zero,
            EveryError::TooShort => EveryFault::TooShort,
        }
    }
}

/// The length of the run of ASCII digits that `s` starts with.
pub open spec fn digit_run(s: Seq<char>) -> nat
    decreases s.len(),
{
    if s.len() > 0 && is_ascii_digit(s[0]) {
        1 + digit_run(s.drop_first())
    } else {
        0
    }
}

/// Seconds per unit: `s`, `m`, `h` and `d`; `None` for anything else.
pub open spec fn unit_seconds(u: Seq<char>) -> Option<nat> {
    if u == seq!['s'] {
        Some(1)
    } else if u == seq!['m'] {
        Some(60)
    } else if u == seq!['h'] {
        Some(3600)
    } else if u == seq!['d'] {
        Some(86400)
    } else {
        None
    }
}

/// What `--every` means: a single-unit duration `<digits><s|m|h|d>`,
/// surrounded by optional whitespace, in seconds, at least one minute.
pub open spec fn every_seconds(input: Seq<char>) -> Result<nat, EveryFault> {
    let s = trim(input);
    let k = digit_run(s) as int;
    let num = s.take(k);
    let unit = s.skip(k);
    if s.len() == 0 {
        Err(EveryFault::Empty)
    } else if k == 0 {
        Err(EveryFault::MissingNumber(s))
    } else if digits_value(num) > u64::MAX {
        Err(EveryFault::BadNumber(s))
    } else if unit.len() == 0 {
        Err(EveryFault::MissingUnit(s))
    } else {
        match unit_seconds(unit) {
            None => Err(EveryFault::UnknownUnit(unit)),
            Some(m) => {
                let secs = digits_value(num) * m;
                if secs > u64::MAX {
                    Err(EveryFault::TooLarge)
                } else if secs == 0 {
                    Err(EveryFault::Zero)
                } else if secs < 60 {
                    Err(EveryFault::TooShort)
                } else {
                    Ok(secs)
                }
            },
        }
    }
}

proof fn lemma_digit_run_at(s: Seq<char>, k: int)
    requires
        0 <= k <= s.len(),
        forall|i: int| 0 <= i < k ==> is_ascii_digit(#[trigger] s[i]),
        k == s.len() || !is_ascii_digit(s[k]),
    ensures
        digit_run(s) == k,
    decreases k,
{
    if k > 0 {
        let t = s.drop_first();
        assert forall|i: int| 0 <= i < k - 1 implies is_ascii_digit(#[trigger] t[i]) by {
            assert(t[i] == s[i + 1]);
        }
        lemma_digit_run_at(t, k - 1);
    }
}

proof fn lemma_digits_value_prefix(ds: Seq<char>, i: int)
    requires
        0 <= i <= ds.len(),
    ensures
        digits_value(ds.take(i)) <= digits_value(ds),
    decreases ds.len(),
{
    if i < ds.len() {
        assert(ds.drop_last().take(i) =~= ds.take(i));
        lemma_digits_value_prefix(ds.drop_last(), i);
    } else {
        assert(ds.take(i) =~= ds);
    }
}

fn unit_multiplier(v: &Vec<char>, from: usize, to: usize) -> (m: Option<u64>)
    requires
        from <= to <= v.len(),
    ensures
        match m {
            Some(x) => unit_seconds(v@.subrange(from as int, to as int)) == Some(x as nat),
            None => unit_seconds(v@.subrange(from as int, to as int)) is None,
        },
{
    let ghost u = v@.subrange(from as int, to as int);
    if to - from != 1 {
        assert(u.len() != 1);
        assert(u != seq!['s'] && u != seq!['m'] && u != seq!['h'] && u != seq!['d']);
        return None;
    }
    let c = v[from];
    assert(u =~= seq![c]);
    assert(u == seq!['s'] <==> c == 's') by {
        if u == seq!['s'] {
            assert(u[0] == seq!['s'][0]);
        }
    }
    assert(u == seq!['m'] <==> c == 'm') by {
        if u == seq!['m'] {
            assert(u[0] == seq!['m'][0]);
        }
    }
    assert(u == seq!['h'] <==> c == 'h') by {
        if u == seq!['h'] {
            assert(u[0] == seq!['h'][0]);
        }
    }
    assert(u == seq!['d'] <==> c == 'd') by {
        if u == seq!['d'] {
            assert(u[0] == seq!['d'][0]);
        }
    }
    if c == 's' {
        Some(1)
    } else if c == 'm' {
        Some(60)
    } else if c == 'h' {
        Some(3600)
    } else if c == 'd' {
        Some(86400)
    } else {
        None
    }
}

fn ascii_digit(c: char) -> (b: bool)
    ensures
        b == is_ascii_digit(c),
{
    '0' <= c && c <= '9'
}

/// Parses a single-unit duration (`<int><s|m|h|d>`) into seconds. Rejects
/// empty input, a missing number or unit, an unknown unit, several units,
/// and intervals of zero or under a minute.
pub fn parse_every(s: &str) -> (r: Result<u64, EveryError>)
    ensures
        match r {
            Ok(secs) => every_seconds(s@) == Ok::<nat, EveryFault>(secs as nat),
            Err(e) => every_seconds(s@) == Err::<nat, EveryFault>(e@),
        },
{
    let v = chars_of(s);
    let (lo, hi) = trim_bounds(&v);
    let ghost t = v@.subrange(lo as int, hi as int);
    if lo == hi {
        return Err(EveryError::Empty);
    }
    let mut k = lo;
    while k < hi && ascii_digit(v[k])
        invariant
            lo <= k <= hi <= v.len(),
            forall|i: int| lo <= i < k ==> is_ascii_digit(#[trigger] v@[i]),
        decreases hi - k,
    {
        k = k + 1;
    }
    proof {
        assert forall|i: int| 0 <= i < k - lo implies is_ascii_digit(#[trigger] t[i]) by {
            assert(t[i] == v@[lo + i]);
        }
        if k < hi {
            assert(t[k - lo] == v@[k as int]);
        }
        lemma_digit_run_at(t, k - lo);
    }
    let ghost num = t.take(k - lo);
    let ghost unit = t.skip(k - lo);
    if k == lo {
        return Err(EveryError::MissingNumber(string_from_range(&v, lo, hi)));
    }
    let mut n: u64 = 0;
    let mut i = lo;
    while i < k
        invariant
            lo <= i <= k <= hi <= v.len(),
            t == v@.subrange(lo as int, hi as int),
            t == trim(s@),
            v@ == s@,
            digit_run(t) == k - lo,
            num == t.take(k - lo),
            forall|j: int| 0 <= j < k - lo ==> is_ascii_digit(#[trigger] t[j]),
            n == digits_value(num.take(i - lo)),
        decreases k - i,
    {
        proof {
            assert(t[i - lo] == v@[i as int]);
        }
        let d = (v[i] as u32 - '0' as u32) as u64;
        proof {
            assert(d == digit_value(v@[i as int]));
            assert(num.take(i - lo + 1).drop_last() =~= num.take(i - lo));
            assert(num.take(i - lo + 1).last() == v@[i as int]);
        }
        match n.checked_mul(10) {
            None => {
                proof {
                    lemma_digits_value_prefix(num, i - lo + 1);
                }
                return Err(EveryError::BadNumber(string_from_range(&v, lo, hi)));
            },
            Some(n10) => match n10.checked_add(d) {
                None => {
                    proof {
                        lemma_digits_value_prefix(num, i - lo + 1);
                    }
                    return Err(EveryError::BadNumber(string_from_range(&v, lo, hi)));
                },
                Some(next) => {
                    n = next;
                },
            },
        }
        i = i + 1;
    }
    assert(num.take(k - lo) =~= num);
    if k == hi {
        return Err(EveryError::MissingUnit(string_from_range(&v, lo, hi)));
    }
    assert(unit =~= v@.subrange(k as int, hi as int));
    let mult = match unit_multiplier(&v, k, hi) {
        Some(m) => m,
        None => {
            return Err(EveryError::UnknownUnit(string_from_range(&v, k, hi)));
        },
    };
    assert(n == digits_value(num));
    assert(unit_seconds(unit) == Some(mult as nat));
    let secs = match n.checked_mul(mult) {
        None => {
            return Err(EveryError::TooLarge);
        },
        Some(x) => x,
    };
    if secs == 0 {
        return Err(EveryError::Zero);
    }
    if secs < 60 {
        return Err(EveryError::TooShort);
    }
    Ok(secs)
}

/// The launchd label of the scan agent.
pub const LABEL: &'static str = "com.tmtidy.scan";

/// The escaped form of one character: `&`, `<` and `>` become entities.
pub open spec fn xml_escape_char(c: char) -> Seq<char> {
    if c == '&' {
        "&amp;"@
    } else if c == '<' {
        "&lt;"@
    } else if c == '>' {
        "&gt;"@
    } else {
        seq![c]
    }
}

/// `s` with `&`, `<` and `>` replaced by their XML entities.
pub open spec fn xml_escaped(s: Seq<char>) -> Seq<char>
    decreases s.len(),
{
    if s.len() == 0 {
        seq![]
    } else {
        xml_escaped(s.drop_last()) + xml_escape_char(s.last())
    }
}

fn push_escaped_char(out: &mut String, c: char)
    ensures
        final(out)@ == old(out)@ + xml_escape_char(c),
{
    if c == '&' {
        push_str(out, "&amp;");
    } else if c == '<' {
        push_str(out, "&lt;");
    } else if c == '>' {
        push_str(out, "&gt;");
    } else {
        push_char(out, c);
        assert(old(out)@.push(c) =~= old(out)@ + seq![c]);
    }
}

/// Appends `s`, XML-escaped, to `out`.
fn push_xml_escaped(out: &mut String, s: &str)
    ensures
        final(out)@ == old(out)@ + xml_escaped(s@),
{
    let v = chars_of(s);
    let mut i: usize = 0;
    while i < v.len()
        invariant
            0 <= i <= v.len(),
            v@ == s@,
            out@ == old(out)@ + xml_escaped(v@.take(i as int)),
        decreases v.len() - i,
    {
        proof {
            assert(v@.take(i as int + 1).drop_last() =~= v@.take(i as int));
            assert(v@.take(i as int + 1).last() == v@[i as int]);
        }
        push_escaped_char(out, v[i]);
        i = i + 1;
    }
    assert(v@.take(v.len() as int) =~= v@);
}

/// `s` with `&`, `<` and `>` replaced by their XML entities.
pub fn xml_escape(s: &str) -> (r: String)
    ensures
        r@ == xml_escaped(s@),
{
    let mut out = String::new();
    push_xml_escaped(&mut out, s);
    out
}

/// The `ProgramArguments` entries: the program, `scan`, and `--config <path>`
/// when a config file was given.
pub open spec fn plist_args(exe: Seq<char>, config: Option<Seq<char>>) -> Seq<char> {
    "\t\t<string>"@ + xml_escaped(exe) + "</string>\n\t\t<string>scan</string>\n"@ + match config {
        Some(c) => "\t\t<string>--config</string>\n\t\t<string>"@ + xml_escaped(c) + "</string>\n"@,
        None => Seq::<char>::empty(),
    }
}

/// The LaunchAgent property list that runs `scan` every `interval` seconds
/// (and once at load), logging both streams to `log`.
pub open spec fn plist_xml(
    exe: Seq<char>,
    config: Option<Seq<char>>,
    interval: nat,
    log: Seq<char>,
) -> Seq<char> {
    "<?xml version=\"1.0\" encoding=\"UTF-8\"?>\n<!DOCTYPE plist PUBLIC \"-//Apple//DTD PLIST 1.0//EN\" \"http://www.apple.com/DTDs/PropertyList-1.0.dtd\">\n<plist version=\"1.0\">\n<dict>\n\t<key>Label</key>\n\t<string>"@
        + LABEL@ + "</string>\n\t<key>ProgramArguments</key>\n\t<array>\n"@ + plist_args(
        exe,
        config,
    ) + "\t</array>\n\t<key>StartInterval</key>\n\t<integer>"@ + decimal(interval)
        + "</integer>\n\t<key>RunAtLoad</key>\n\t<true/>\n\t<key>StandardOutPath</key>\n\t<string>"@
        + xml_escaped(log) + "</string>\n\t<key>StandardErrorPath</key>\n\t<string>"@
        + xml_escaped(log)
        + "</string>\n\t<key>ProcessType</key>\n\t<string>Background</string>\n\t<key>LowPriorityIO</key>\n\t<true/>\n\t<key>Nice</key>\n\t<integer>5</integer>\n</dict>\n</plist>\n"@
}

/// Renders the LaunchAgent plist XML for running `exe scan` (with
/// `--config <config>` when given) every `interval_secs` seconds, logging to
/// `log`. Pure: no filesystem access.
pub fn render_plist(exe: &str, config: Option<&str>, interval_secs: u64, log: &str) -> (r: String)
    ensures
        r@ == plist_xml(
            exe@,
            match config {
                Some(c) => Some(c@),
                None => None,
            },
            interval_secs as nat,
            log@,
        ),
{
    let mut out = String::new();
    push_str(
        &mut out,
        "<?xml version=\"1.0\" encoding=\"UTF-8\"?>\n<!DOCTYPE plist PUBLIC \"-//Apple//DTD PLIST 1.0//EN\" \"http://www.apple.com/DTDs/PropertyList-1.0.dtd\">\n<plist version=\"1.0\">\n<dict>\n\t<key>Label</key>\n\t<string>",
    );
    push_str(&mut out, LABEL);
    push_str(&mut out, "</string>\n\t<key>ProgramArguments</key>\n\t<array>\n");
    let ghost before_args = out@;
    push_str(&mut out, "\t\t<string>");
    push_xml_escaped(&mut out, exe);
    push_str(&mut out, "</string>\n\t\t<string>scan</string>\n");
    match config {
        Some(c) => {
            push_str(&mut out, "\t\t<string>--config</string>\n\t\t<string>");
            push_xml_escaped(&mut out, c);
            push_str(&mut out, "</string>\n");
        },
        None => {},
    }
    let ghost cfg_view = match config {
        Some(c) => Some(c@),
        None => None::<Seq<char>>,
    };
    assert(out@ =~= before_args + plist_args(exe@, cfg_view));
    push_str(&mut out, "\t</array>\n\t<key>StartInterval</key>\n\t<integer>");
    push_decimal(&mut out, interval_secs);
    push_str(
        &mut out,
        "</integer>\n\t<key>RunAtLoad</key>\n\t<true/>\n\t<key>StandardOutPath</key>\n\t<string>",
    );
    push_xml_escaped(&mut out, log);
    push_str(&mut out, "</string>\n\t<key>StandardErrorPath</key>\n\t<string>");
    push_xml_escaped(&mut out, log);
    push_str(
        &mut out,
        "</string>\n\t<key>ProcessType</key>\n\t<string>Background</string>\n\t<key>LowPriorityIO</key>\n\t<true/>\n\t<key>Nice</key>\n\t<integer>5</integer>\n</dict>\n</plist>\n",
    );
    assert(out@ =~= plist_xml(exe@, cfg_view, interval_secs as nat, log@));
    out
}

/// Where the LaunchAgent plist lives: `Library/LaunchAgents/<label>.plist`
/// under `home`.
pub fn plist_path(home: &str) -> (p: String)
    ensures
        p@ == join(join(home@, "Library/LaunchAgents"@), LABEL@ + ".plist"@),
{
    let dir = join_path(home, "Library/LaunchAgents");
    let mut name = String::new();
    push_str(&mut name, LABEL);
    push_str(&mut name, ".plist");
    join_path(dir.as_str(), name.as_str())
}

/// Where the scheduled scan writes its output: `tmtidy/scan.log` under the
/// state dir `state_home`, beside the run log.
pub fn scan_log_path(state_home: &str) -> (p: String)
    ensures
        p@ == join(state_home@, "tmtidy/scan.log"@),
{
    join_path(state_home, "tmtidy/scan.log")
}

/// The launchd domain of the user `uid`: `gui/<uid>`.
pub fn domain_target(uid: &str) -> (t: String)
    ensures
        t@ == "gui/"@ + uid@,
{
    let mut t = String::new();
    push_str(&mut t, "gui/");
    push_str(&mut t, uid);
    t
}

/// Whether a failed `launchctl bootout` only says that the agent was not
/// loaded, which counts as success.
pub fn bootout_is_benign(stderr: &str) -> (b: bool)
    ensures
        b == (contains(stderr@, "No such process"@) || contains(stderr@, "Could not find"@)),
{
    str_contains(stderr, "No such process") || str_contains(stderr, "Could not find")
}

/// Every interval `--every` accepts is at least one minute and fits in a
/// `u64`.
pub proof fn lemma_every_at_least_a_minute(s: Seq<char>)
    ensures
        every_seconds(s) matches Ok(v) ==> 60 <= v <= u64::MAX,
{
}

/// Whitespace around an `--every` value is ignored.
pub proof fn lemma_every_ignores_surrounding_whitespace(a: Seq<char>, s: Seq<char>, b: Seq<char>)
    requires
        all_whitespace(a),
        all_whitespace(b),
    ensures
        every_seconds(a + s + b) == every_seconds(s),
{
    lemma_trim_ignores_surrounding_whitespace(a, s, b);
}

/// Seconds per unit character.
pub open spec fn unit_char_seconds(c: char) -> nat {
    if c == 's' {
        1
    } else if c == 'm' {
        60
    } else if c == 'h' {
        3600
    } else {
        86400
    }
}

/// A number written in decimal followed by one unit parses back to that many
/// units in seconds, whenever that is at least a minute and fits in a `u64`.
pub proof fn lemma_every_roundtrip(n: nat, unit: char)
    requires
        unit == 's' || unit == 'm' || unit == 'h' || unit == 'd',
        60 <= n * unit_char_seconds(unit) <= u64::MAX,
    ensures
        every_seconds(decimal(n).push(unit)) == Ok::<nat, EveryFault>(n * unit_char_seconds(unit)),
{
    let d = decimal(n);
    let s = d.push(unit);
    let m = unit_char_seconds(unit);
    lemma_decimal_digits(n);
    assert(unit_seconds(seq![unit]) == Some(m)) by {
        let u = seq![unit];
        if u == seq!['s'] {
            assert(u[0] == seq!['s'][0]);
        }
        if u == seq!['m'] {
            assert(u[0] == seq!['m'][0]);
        }
        if u == seq!['h'] {
            assert(u[0] == seq!['h'][0]);
        }
        if unit == 's' {
            assert(u =~= seq!['s']);
        } else if unit == 'm' {
            assert(u =~= seq!['m']);
        } else if unit == 'h' {
            assert(u =~= seq!['h']);
        } else {
            assert(u =~= seq!['d']);
        }
    }
    assert(!is_whitespace(s[0])) by {
        assert(s[0] == d[0]);
        assert(is_ascii_digit(d[0]));
    }
    assert(trim_start(s) == s);
    assert(s.last() == unit);
    assert(trim_end(s) == s);
    assert(trim(s) == s);
    assert forall|i: int| 0 <= i < d.len() implies is_ascii_digit(#[trigger] s[i]) by {
        assert(s[i] == d[i]);
    }
    lemma_digit_run_at(s, d.len() as int);
    assert(s.take(d.len() as int) =~= d);
    assert(s.skip(d.len() as int) =~= seq![unit]);
    assert(n <= n * m) by (nonlinear_arith)
        requires
            m >= 1,
    ;
}

/// XML entity decoding of `&amp;`, `&lt;` and `&gt;`, as a reader of the
/// plist does it.
pub open spec fn xml_unescaped(s: Seq<char>) -> Seq<char>
    decreases s.len(),
{
    if s.len() == 0 {
        Seq::<char>::empty()
    } else if s.len() >= 5 && s.take(5) == "&amp;"@ {
        seq!['&'] + xml_unescaped(s.skip(5))
    } else if s.len() >= 4 && s.take(4) == "&lt;"@ {
        seq!['<'] + xml_unescaped(s.skip(4))
    } else if s.len() >= 4 && s.take(4) == "&gt;"@ {
        seq!['>'] + xml_unescaped(s.skip(4))
    } else {
        seq![s[0]] + xml_unescaped(s.drop_first())
    }
}

proof fn lemma_xml_escaped_concat(x: Seq<char>, y: Seq<char>)
    ensures
        xml_escaped(x + y) == xml_escaped(x) + xml_escaped(y),
    decreases y.len(),
{
    if y.len() == 0 {
        assert(x + y =~= x);
        assert(xml_escaped(x) + Seq::<char>::empty() =~= xml_escaped(x));
    } else {
        assert((x + y).drop_last() =~= x + y.drop_last());
        assert((x + y).last() == y.last());
        lemma_xml_escaped_concat(x, y.drop_last());
        assert(xml_escaped(x) + xml_escaped(y.drop_last()) + xml_escape_char(y.last()) =~= xml_escaped(
            x,
        ) + (xml_escaped(y.drop_last()) + xml_escape_char(y.last())));
    }
}

/// Escaped text holds no `<` or `>`, so it cannot open or close an element.
pub proof fn lemma_xml_escaped_has_no_angle_brackets(s: Seq<char>)
    ensures
        forall|i: int|
            0 <= i < xml_escaped(s).len() ==> #[trigger] xml_escaped(s)[i] != '<'
                && xml_escaped(s)[i] != '>',
    decreases s.len(),
{
    reveal_strlit("&amp;");
    reveal_strlit("&lt;");
    reveal_strlit("&gt;");
    if s.len() > 0 {
        lemma_xml_escaped_has_no_angle_brackets(s.drop_last());
        let p = xml_escaped(s.drop_last());
        let e = xml_escape_char(s.last());
        assert forall|i: int| 0 <= i < xml_escaped(s).len() implies #[trigger] xml_escaped(s)[i]
            != '<' && xml_escaped(s)[i] != '>' by {
            if i < p.len() {
                assert(xml_escaped(s)[i] == p[i]);
            } else {
                assert(xml_escaped(s)[i] == e[i - p.len()]);
            }
        }
    }
}

/// Decoding the escaped text gives back the text that was escaped.
pub proof fn lemma_xml_escape_roundtrip(s: Seq<char>)
    ensures
        xml_unescaped(xml_escaped(s)) == s,
    decreases s.len(),
{
    reveal_strlit("&amp;");
    reveal_strlit("&lt;");
    reveal_strlit("&gt;");
    if s.len() > 0 {
        let c = s[0];
        let rest = s.drop_first();
        assert(s =~= seq![c] + rest);
        lemma_xml_escaped_concat(seq![c], rest);
        assert(seq![c].drop_last() =~= Seq::<char>::empty());
        assert(xml_escaped(Seq::<char>::empty()) == Seq::<char>::empty());
        assert(seq![c].last() == c);
        assert(xml_escaped(seq![c]) =~= xml_escape_char(c));
        let e = xml_escape_char(c);
        let tail = xml_escaped(rest);
        let all = e + tail;
        lemma_xml_escape_roundtrip(rest);
        if c == '&' {
            assert(all.take(5) =~= "&amp;"@);
            assert(all.skip(5) =~= tail);
        } else if c == '<' {
            assert(!(all.len() >= 5 && all.take(5) == "&amp;"@)) by {
                if all.len() >= 5 {
                    assert(all.take(5)[1] == 'l');
                    assert("&amp;"@[1] == 'a');
                }
            }
            assert(all.take(4) =~= "&lt;"@);
            assert(all.skip(4) =~= tail);
        } else if c == '>' {
            assert(!(all.len() >= 5 && all.take(5) == "&amp;"@)) by {
                if all.len() >= 5 {
                    assert(all.take(5)[1] == 'g');
                    assert("&amp;"@[1] == 'a');
                }
            }
            assert(!(all.len() >= 4 && all.take(4) == "&lt;"@)) by {
                assert(all.take(4)[1] == 'g');
                assert("&lt;"@[1] == 'l');
            }
            assert(all.take(4) =~= "&gt;"@);
            assert(all.skip(4) =~= tail);
        } else {
            assert(all[0] == c);
            if all.len() >= 5 {
                assert(all.take(5)[0] == c);
            }
            if all.len() >= 4 {
                assert(all.take(4)[0] == c);
            }
            assert(all.drop_first() =~= tail);
        }
        assert(seq![c] + rest =~= s);
    }
}

/// The `<string>` elements of a plist array, one per item of `xs`, each
/// on its own line with its text XML-escaped.
pub open spec fn string_elements(xs: Seq<Seq<char>>) -> Seq<char>
    decreases xs.len(),
{
    if xs.len() == 0 {
        Seq::<char>::empty()
    } else {
        "\t\t<string>"@ + xml_escaped(xs[0]) + "</string>\n"@ + string_elements(xs.drop_first())
    }
}

proof fn lemma_xml_escaped_plain(s: Seq<char>)
    requires
        forall|i: int| 0 <= i < s.len() ==> #[trigger] s[i] != '&' && s[i] != '<' && s[i] != '>',
    ensures
        xml_escaped(s) == s,
    decreases s.len(),
{
    if s.len() > 0 {
        lemma_xml_escaped_plain(s.drop_last());
        assert(s.drop_last() + seq![s.last()] =~= s);
    }
}

/// The program arguments that launchd runs: the `ProgramArguments` array
/// holds, one `<string>` element each and in this order, the program, `scan`,
/// and, when a config file is given, `--config` directly followed by its
/// path; nothing else.
pub proof fn lemma_plist_program_arguments(exe: Seq<char>, config: Option<Seq<char>>)
    ensures
        plist_args(exe, config) == string_elements(
            match config {
                Some(c) => seq![exe, "scan"@, "--config"@, c],
                None => seq![exe, "scan"@],
            },
        ),
{
    reveal_strlit("scan");
    reveal_strlit("--config");
    lemma_xml_escaped_plain("scan"@);
    lemma_xml_escaped_plain("--config"@);
    let p = "\t\t<string>"@;
    let q = "</string>\n"@;
    let e = |x: Seq<char>| p + xml_escaped(x) + q;
    assert(p + xml_escaped(exe) + "</string>\n\t\t<string>scan</string>\n"@ =~= e(exe) + e("scan"@)) by {
        reveal_strlit("</string>\n\t\t<string>scan</string>\n");
        reveal_strlit("\t\t<string>");
        reveal_strlit("</string>\n");
    }
    match config {
        Some(c) => {
            let xs = seq![exe, "scan"@, "--config"@, c];
            assert(xs.drop_first() =~= seq!["scan"@, "--config"@, c]);
            assert(xs.drop_first().drop_first() =~= seq!["--config"@, c]);
            assert(xs.drop_first().drop_first().drop_first() =~= seq![c]);
            assert(seq![c].drop_first() =~= Seq::<Seq<char>>::empty());
            assert("\t\t<string>--config</string>\n\t\t<string>"@ + xml_escaped(c) + "</string>\n"@
                =~= e("--config"@) + e(c)) by {
                reveal_strlit("\t\t<string>--config</string>\n\t\t<string>");
                reveal_strlit("\t\t<string>");
                reveal_strlit("</string>\n");
            }
            assert(string_elements(seq![c]) == e(c) + string_elements(Seq::<Seq<char>>::empty()));
            assert(e(c) + Seq::<char>::empty() =~= e(c));
            assert(string_elements(seq!["--config"@, c]) =~= e("--config"@) + e(c));
            assert(string_elements(seq!["scan"@, "--config"@, c]) =~= e("scan"@) + (e("--config"@) + e(c)));
            assert(string_elements(xs) =~= e(exe) + (e("scan"@) + (e("--config"@) + e(c))));
            assert(plist_args(exe, config) =~= string_elements(xs));
        },
        None => {
            let xs = seq![exe, "scan"@];
            assert(xs.drop_first() =~= seq!["scan"@]);
            assert(seq!["scan"@].drop_first() =~= Seq::<Seq<char>>::empty());
            assert(string_elements(seq!["scan"@]) == e("scan"@) + string_elements(Seq::<Seq<char>>::empty()));
            assert(e("scan"@) + Seq::<char>::empty() =~= e("scan"@));
            assert(string_elements(xs) =~= e(exe) + e("scan"@));
            assert(plist_args(exe, config) =~= string_elements(xs));
        },
    }
}

/// The `<string>` elements read back unambiguously: two lists of items render
/// to the same elements only when they are the same list, so each element's
/// text, XML-decoded, is exactly its item.
pub proof fn lemma_string_elements_read_back(xs: Seq<Seq<char>>, ys: Seq<Seq<char>>)
    requires
        string_elements(xs) == string_elements(ys),
    ensures
        xs == ys,
        forall|i: int| 0 <= i < xs.len() ==> xml_unescaped(xml_escaped(#[trigger] xs[i])) == ys[i],
    decreases xs.len(),
{
    reveal_strlit("\t\t<string>");
    reveal_strlit("</string>\n");
    let p = "\t\t<string>"@;
    let q = "</string>\n"@;
    let a = string_elements(xs);
    if xs.len() == 0 || ys.len() == 0 {
        if xs.len() != 0 || ys.len() != 0 {
            assert(a.len() == 0);
            if xs.len() != 0 {
                assert(string_elements(xs).len() >= p.len());
            } else {
                assert(string_elements(ys).len() >= p.len());
            }
        }
        assert(xs =~= ys);
    } else {
        let ea = xml_escaped(xs[0]);
        let eb = xml_escaped(ys[0]);
        let ra = string_elements(xs.drop_first());
        let rb = string_elements(ys.drop_first());
        assert(a == p + ea + q + ra);
        assert(a == p + eb + q + rb);
        lemma_xml_escaped_has_no_angle_brackets(xs[0]);
        lemma_xml_escaped_has_no_angle_brackets(ys[0]);
        if ea.len() < eb.len() {
            assert(a[p.len() + ea.len() as int] == q[0]);
            assert(a[p.len() + ea.len() as int] == eb[ea.len() as int]);
            assert(false);
        }
        if eb.len() < ea.len() {
            assert(a[p.len() + eb.len() as int] == q[0]);
            assert(a[p.len() + eb.len() as int] == ea[eb.len() as int]);
            assert(false);
        }
        assert(ea =~= a.subrange(p.len() as int, p.len() + ea.len() as int));
        assert(eb =~= a.subrange(p.len() as int, p.len() + eb.len() as int));
        lemma_xml_escape_roundtrip(xs[0]);
        lemma_xml_escape_roundtrip(ys[0]);
        assert(xs[0] == ys[0]);
        let n: int = (p.len() + ea.len() + q.len()) as int;
        assert(ra =~= a.skip(n));
        assert(rb =~= a.skip(n));
        lemma_string_elements_read_back(xs.drop_first(), ys.drop_first());
        assert(xs =~= ys) by {
            assert forall|i: int| 0 <= i < xs.len() implies xs[i] == ys[i] by {
                if i > 0 {
                    assert(xs[i] == xs.drop_first()[i - 1]);
                    assert(ys[i] == ys.drop_first()[i - 1]);
                }
            }
        }
        assert forall|i: int| 0 <= i < xs.len() implies xml_unescaped(xml_escaped(#[trigger] xs[i])) == ys[i] by {
            lemma_xml_escape_roundtrip(xs[i]);
        }
    }
}

proof fn lemma_contains_middle(pre: Seq<char>, needle: Seq<char>, post: Seq<char>)
    ensures
        contains(pre + needle + post, needle),
{
    let all = pre + needle + post;
    assert(all.subrange(pre.len() as int, pre.len() + needle.len() as int) =~= needle);
    assert(occurs_at(all, needle, pre.len() as int));
}

proof fn lemma_contains_prefix(a: Seq<char>, b: Seq<char>, needle: Seq<char>)
    requires
        contains(a, needle),
    ensures
        contains(a + b, needle),
{
    let i = choose|i: int| occurs_at(a, needle, i);
    assert((a + b).subrange(i, i + needle.len()) =~= a.subrange(i, i + needle.len()));
    assert(occurs_at(a + b, needle, i));
}

proof fn lemma_contains_suffix(a: Seq<char>, b: Seq<char>, needle: Seq<char>)
    requires
        contains(b, needle),
    ensures
        contains(a + b, needle),
{
    let i = choose|i: int| occurs_at(b, needle, i);
    assert((a + b).subrange(a.len() + i, a.len() + i + needle.len()) =~= b.subrange(i, i + needle.len()));
    assert(occurs_at(a + b, needle, a.len() + i));
}

proof fn lemma_plist_literal_splits()
    ensures
        "</string>\n\t<key>ProgramArguments</key>\n\t<array>\n"@ == "</string>\n\t"@
            + "<key>ProgramArguments</key>\n\t<array>\n"@,
        "\t</array>\n\t<key>StartInterval</key>\n\t<integer>"@ == "\t</array>\n"@ + "\t"@
            + "<key>StartInterval</key>\n\t<integer>"@,
        "</integer>\n\t<key>RunAtLoad</key>\n\t<true/>\n\t<key>StandardOutPath</key>\n\t<string>"@
            == "</integer>\n"@ + "\t<key>RunAtLoad</key>\n\t<true/>\n\t"@
            + "<key>StandardOutPath</key>\n\t<string>"@,
        "</string>\n\t<key>StandardErrorPath</key>\n\t<string>"@ == "</string>\n"@ + "\t"@
            + "<key>StandardErrorPath</key>\n\t<string>"@,
        "</string>\n\t<key>ProcessType</key>\n\t<string>Background</string>\n\t<key>LowPriorityIO</key>\n\t<true/>\n\t<key>Nice</key>\n\t<integer>5</integer>\n</dict>\n</plist>\n"@
            == "</string>\n"@
            + "\t<key>ProcessType</key>\n\t<string>Background</string>\n\t<key>LowPriorityIO</key>\n\t<true/>\n\t<key>Nice</key>\n\t<integer>5</integer>\n</dict>\n</plist>\n"@,
{
    reveal_strlit("</string>\n\t<key>ProgramArguments</key>\n\t<array>\n");
    reveal_strlit("</string>\n\t");
    reveal_strlit("<key>ProgramArguments</key>\n\t<array>\n");
    assert("</string>\n\t<key>ProgramArguments</key>\n\t<array>\n"@ =~= "</string>\n\t"@
        + "<key>ProgramArguments</key>\n\t<array>\n"@);
    reveal_strlit("\t</array>\n\t<key>StartInterval</key>\n\t<integer>");
    reveal_strlit("\t</array>\n");
    reveal_strlit("\t");
    reveal_strlit("<key>StartInterval</key>\n\t<integer>");
    assert("\t</array>\n\t<key>StartInterval</key>\n\t<integer>"@ =~= "\t</array>\n"@ + "\t"@
        + "<key>StartInterval</key>\n\t<integer>"@);
    reveal_strlit("</integer>\n\t<key>RunAtLoad</key>\n\t<true/>\n\t<key>StandardOutPath</key>\n\t<string>");
    reveal_strlit("</integer>\n");
    reveal_strlit("\t<key>RunAtLoad</key>\n\t<true/>\n\t");
    reveal_strlit("<key>StandardOutPath</key>\n\t<string>");
    assert("</integer>\n\t<key>RunAtLoad</key>\n\t<true/>\n\t<key>StandardOutPath</key>\n\t<string>"@
        =~= "</integer>\n"@ + "\t<key>RunAtLoad</key>\n\t<true/>\n\t"@
        + "<key>StandardOutPath</key>\n\t<string>"@);
    reveal_strlit("</string>\n\t<key>StandardErrorPath</key>\n\t<string>");
    reveal_strlit("</string>\n");
    reveal_strlit("<key>StandardErrorPath</key>\n\t<string>");
    assert("</string>\n\t<key>StandardErrorPath</key>\n\t<string>"@ =~= "</string>\n"@ + "\t"@
        + "<key>StandardErrorPath</key>\n\t<string>"@);
    reveal_strlit("</string>\n\t<key>ProcessType</key>\n\t<string>Background</string>\n\t<key>LowPriorityIO</key>\n\t<true/>\n\t<key>Nice</key>\n\t<integer>5</integer>\n</dict>\n</plist>\n");
    reveal_strlit("\t<key>ProcessType</key>\n\t<string>Background</string>\n\t<key>LowPriorityIO</key>\n\t<true/>\n\t<key>Nice</key>\n\t<integer>5</integer>\n</dict>\n</plist>\n");
    assert("</string>\n\t<key>ProcessType</key>\n\t<string>Background</string>\n\t<key>LowPriorityIO</key>\n\t<true/>\n\t<key>Nice</key>\n\t<integer>5</integer>\n</dict>\n</plist>\n"@
        =~= "</string>\n"@
        + "\t<key>ProcessType</key>\n\t<string>Background</string>\n\t<key>LowPriorityIO</key>\n\t<true/>\n\t<key>Nice</key>\n\t<integer>5</integer>\n</dict>\n</plist>\n"@);
}

proof fn lemma_plist_parts(
    h: Seq<char>,
    l1: Seq<char>,
    a: Seq<char>,
    l2: Seq<char>,
    d: Seq<char>,
    l3: Seq<char>,
    g: Seq<char>,
    l4: Seq<char>,
    l5: Seq<char>,
    s1: Seq<char>,
    k1: Seq<char>,
    e1: Seq<char>,
    t2: Seq<char>,
    k2: Seq<char>,
    e2: Seq<char>,
    t3: Seq<char>,
    k3: Seq<char>,
    e3: Seq<char>,
    t4: Seq<char>,
    k4: Seq<char>,
    s5: Seq<char>,
)
    requires
        l1 == s1 + k1,
        l2 == e1 + t2 + k2,
        l3 == e2 + t3 + k3,
        l4 == e3 + t4 + k4,
        l5 == e3 + s5,
    ensures
        contains(h + l1 + a + l2 + d + l3 + g + l4 + g + l5, k1 + a + e1),
        contains(h + l1 + a + l2 + d + l3 + g + l4 + g + l5, k2 + d + e2),
        contains(h + l1 + a + l2 + d + l3 + g + l4 + g + l5, k3 + g + e3),
        contains(h + l1 + a + l2 + d + l3 + g + l4 + g + l5, k4 + g + e3),
{
    let x = h + l1 + a + l2 + d + l3 + g + l4 + g + l5;
    let n1 = k1 + a + e1;
    let n2 = k2 + d + e2;
    let n3 = k3 + g + e3;
    let n4 = k4 + g + e3;
    assert(contains(h + l1 + a + l2, n1)) by {
        assert(h + l1 + a + l2 =~= (h + s1) + n1 + (t2 + k2));
        lemma_contains_middle(h + s1, n1, t2 + k2);
    }
    assert(contains(h + l1 + a + l2 + d + l3, n2)) by {
        let y = h + l1 + a;
        assert(l2 + d + l3 =~= (e1 + t2) + n2 + (t3 + k3));
        lemma_contains_middle(e1 + t2, n2, t3 + k3);
        lemma_contains_suffix(y, l2 + d + l3, n2);
        assert(y + (l2 + d + l3) =~= y + l2 + d + l3);
    }
    assert(contains(h + l1 + a + l2 + d + l3 + g + l4, n3)) by {
        let y = h + l1 + a + l2 + d;
        assert(l3 + g + l4 =~= (e2 + t3) + n3 + (t4 + k4));
        lemma_contains_middle(e2 + t3, n3, t4 + k4);
        lemma_contains_suffix(y, l3 + g + l4, n3);
        assert(y + (l3 + g + l4) =~= y + l3 + g + l4);
    }
    assert(contains(x, n4)) by {
        let y = h + l1 + a + l2 + d + l3 + g;
        assert(l4 + g + l5 =~= (e3 + t4) + n4 + s5);
        lemma_contains_middle(e3 + t4, n4, s5);
        lemma_contains_suffix(y, l4 + g + l5, n4);
        assert(y + (l4 + g + l5) =~= y + l4 + g + l5);
    }
    let p1 = h + l1 + a + l2;
    lemma_contains_prefix(p1, d, n1);
    lemma_contains_prefix(p1 + d, l3, n1);
    lemma_contains_prefix(p1 + d + l3, g, n1);
    lemma_contains_prefix(p1 + d + l3 + g, l4, n1);
    lemma_contains_prefix(p1 + d + l3 + g + l4, g, n1);
    lemma_contains_prefix(p1 + d + l3 + g + l4 + g, l5, n1);
    let p2 = h + l1 + a + l2 + d + l3;
    lemma_contains_prefix(p2, g, n2);
    lemma_contains_prefix(p2 + g, l4, n2);
    lemma_contains_prefix(p2 + g + l4, g, n2);
    lemma_contains_prefix(p2 + g + l4 + g, l5, n2);
    let p3 = h + l1 + a + l2 + d + l3 + g + l4;
    lemma_contains_prefix(p3, g, n3);
    lemma_contains_prefix(p3 + g, l5, n3);
}

/// What launchd reads from the rendered plist: the `ProgramArguments` array
/// of the program, `scan` and, when given, `--config` with the config path;
/// `StartInterval` the interval in decimal; and both `StandardOutPath` and
/// `StandardErrorPath` the log path.
pub proof fn lemma_plist_entries(exe: Seq<char>, config: Option<Seq<char>>, interval: nat, log: Seq<char>)
    ensures
        contains(
            plist_xml(exe, config, interval, log),
            "<key>ProgramArguments</key>\n\t<array>\n"@ + string_elements(
                match config {
                    Some(c) => seq![exe, "scan"@, "--config"@, c],
                    None => seq![exe, "scan"@],
                },
            ) + "\t</array>\n"@,
        ),
        contains(
            plist_xml(exe, config, interval, log),
            "<key>StartInterval</key>\n\t<integer>"@ + decimal(interval) + "</integer>\n"@,
        ),
        contains(
            plist_xml(exe, config, interval, log),
            "<key>StandardOutPath</key>\n\t<string>"@ + xml_escaped(log) + "</string>\n"@,
        ),
        contains(
            plist_xml(exe, config, interval, log),
            "<key>StandardErrorPath</key>\n\t<string>"@ + xml_escaped(log) + "</string>\n"@,
        ),
{
    let args = match config {
        Some(c) => seq![exe, "scan"@, "--config"@, c],
        None => seq![exe, "scan"@],
    };
    lemma_plist_program_arguments(exe, config);
    let x = plist_xml(exe, config, interval, log);
    let h = "<?xml version=\"1.0\" encoding=\"UTF-8\"?>\n<!DOCTYPE plist PUBLIC \"-//Apple//DTD PLIST 1.0//EN\" \"http://www.apple.com/DTDs/PropertyList-1.0.dtd\">\n<plist version=\"1.0\">\n<dict>\n\t<key>Label</key>\n\t<string>"@
        + LABEL@;
    let l1 = "</string>\n\t<key>ProgramArguments</key>\n\t<array>\n"@;
    let l2 = "\t</array>\n\t<key>StartInterval</key>\n\t<integer>"@;
    let l3 = "</integer>\n\t<key>RunAtLoad</key>\n\t<true/>\n\t<key>StandardOutPath</key>\n\t<string>"@;
    let l4 = "</string>\n\t<key>StandardErrorPath</key>\n\t<string>"@;
    let l5 = "</string>\n\t<key>ProcessType</key>\n\t<string>Background</string>\n\t<key>LowPriorityIO</key>\n\t<true/>\n\t<key>Nice</key>\n\t<integer>5</integer>\n</dict>\n</plist>\n"@;
    let k1 = "<key>ProgramArguments</key>\n\t<array>\n"@;
    let e1 = "\t</array>\n"@;
    let k2 = "<key>StartInterval</key>\n\t<integer>"@;
    let e2 = "</integer>\n"@;
    let k3 = "<key>StandardOutPath</key>\n\t<string>"@;
    let k4 = "<key>StandardErrorPath</key>\n\t<string>"@;
    let e3 = "</string>\n"@;
    let d = decimal(interval);
    let a = string_elements(args);
    let g = xml_escaped(log);
    assert(x == h + l1 + a + l2 + d + l3 + g + l4 + g + l5);
    lemma_plist_literal_splits();
    let s1 = "</string>\n\t"@;
    let t2 = "\t"@;
    let t3 = "\t<key>RunAtLoad</key>\n\t<true/>\n\t"@;
    let t4 = "\t"@;
    let s5 = "\t<key>ProcessType</key>\n\t<string>Background</string>\n\t<key>LowPriorityIO</key>\n\t<true/>\n\t<key>Nice</key>\n\t<integer>5</integer>\n</dict>\n</plist>\n"@;
    lemma_plist_parts(h, l1, a, l2, d, l3, g, l4, l5, s1, k1, e1, t2, k2, e2, t3, k3, e3, t4, k4, s5);
}

/// What `serde_json::from_str::<serde_json::Value>` makes of a run-log line:
/// `None` when the line is not JSON; otherwise its `ts` member when that is
/// a JSON string, and its `stats` member rendered back as compact JSON.
pub uninterp spec fn run_line_fields(line: Seq<char>) -> Option<(Option<Seq<char>>, Option<Seq<char>>)>;

/// The view of the fields of a parsed run-log line.
pub open spec fn fields_view(f: Option<(Option<String>, Option<String>)>) -> Option<(Option<Seq<char>>, Option<Seq<char>>)> {
    match f {
        None => None,
        Some((ts, st)) => Some((
            match ts {
                Some(t) => Some(t@),
                None => None,
            },
            match st {
                Some(x) => Some(x@),
                None => None,
            },
        )),
    }
}

/// Calls `serde_json::from_str::<serde_json::Value>(line)`. Claimed: the
/// result depends on the line alone. `None` when parsing fails; otherwise
/// `ts` is the `ts` member when it is a JSON string (`Value::as_str`), and
/// `stats` is the `stats` member rendered with `Value::to_string`.
#[verifier::external_body]
fn parse_run_line(line: &str) -> (r: Option<(Option<String>, Option<String>)>)
    ensures
        fields_view(r) == run_line_fields(line@),
{
    match serde_json::from_str::<serde_json::Value>(line) {
        Ok(v) => Some((
            v.get("ts").and_then(|t| t.as_str()).map(|t| t.to_string()),
            v.get("stats").map(|s| s.to_string()),
        )),
        Err(_) => None,
    }
}

/// The "last run" summary of a scan record: its timestamp (or `?`), a space
/// and its stats (or nothing); the raw line when it is not JSON.
pub open spec fn scan_summary(line: Seq<char>, fields: Option<(Option<Seq<char>>, Option<Seq<char>>)>) -> Seq<char> {
    match fields {
        None => line,
        Some((ts, st)) => (match ts {
            Some(t) => t,
            None => "?"@,
        }) + " "@ + (match st {
            Some(x) => x,
            None => Seq::<char>::empty(),
        }),
    }
}

/// Renders the "last run" summary of the scan record `line` from its parsed
/// fields.
pub fn render_scan_summary(line: &str, parsed: Option<(Option<String>, Option<String>)>) -> (s: String)
    ensures
        s@ == scan_summary(line@, fields_view(parsed)),
{
    let mut out = String::new();
    match parsed {
        None => {
            push_str(&mut out, line);
            assert(out@ =~= line@);
        },
        Some((ts, st)) => {
            match ts {
                Some(t) => push_str(&mut out, t.as_str()),
                None => push_str(&mut out, "?"),
            }
            push_str(&mut out, " ");
            match st {
                Some(x) => push_str(&mut out, x.as_str()),
                None => {
                    assert(out@ + Seq::<char>::empty() =~= out@);
                },
            }
        },
    }
    out
}

/// The marker of a scan record in the run log.
pub open spec fn scan_marker() -> Seq<char> {
    "\"command\":\"scan\""@
}

/// The "last run" line of `schedule status`: the summary of the last line of
/// the run log `content` that holds a scan record, if any.
pub fn last_scan_summary(content: &str) -> (r: Option<String>)
    ensures
        r is None <==> last_containing(lines(content@), scan_marker()) is None,
        r matches Some(s) ==> (last_containing(lines(content@), scan_marker()) matches Some(line)
            && s@ == scan_summary(line, run_line_fields(line))),
{
    match last_line_containing(content, "\"command\":\"scan\"") {
        None => None,
        Some(line) => {
            let parsed = parse_run_line(line.as_str());
            Some(render_scan_summary(line.as_str(), parsed))
        },
    }
}

} // verus!
