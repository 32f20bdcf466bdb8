//! The resolver's configuration record.

use crate::text::{
    lemma_find_by_is, parse_u64, spec_find_by, spec_parse_u64, spec_split_by, spec_trim,
    spec_words, split_by, substring, trim, words, chars_of,
};
use vstd::prelude::*;
use vstd::string::*;

verus! {

/// An IP address, as its bytes in network order.
#[derive(Debug, Clone, Copy, PartialEq, Eq)]
pub enum IpAddr {
    V4([u8; 4]),
    V6([u8; 16]),
}

/// The options of a configuration.
#[derive(Debug, Clone, PartialEq, Eq)]
pub struct Options {
    pub ndots: u32,
    pub attempts: u32,
    pub timeout_secs: u64,
    pub use_vc: bool,
    pub rotate: bool,
    pub inet6: bool,
    pub edns0: bool,
}

/// The default options: four attempts, a timeout of five seconds, and
/// everything else off.
pub open spec fn spec_default_options() -> Options {
    Options {
        ndots: 0,
        attempts: 4,
        timeout_secs: 5,
        use_vc: false,
        rotate: false,
        inet6: false,
        edns0: false,
    }
}

impl Default for Options {
    /// Four attempts, a timeout of five seconds, and everything else off.
    fn default() -> (r: Options)
        ensures
            r == spec_default_options(),
    {
        Options {
            ndots: 0,
            attempts: 4,
            timeout_secs: 5,
            use_vc: false,
            rotate: false,
            inet6: false,
            edns0: false,
        }
    }
}

/// What a resolver is configured with: the nameservers in order, each with
/// the port to use where it has one of its own, the domain, the search list
/// and the options.
#[derive(Debug, Clone, PartialEq, Eq)]
pub struct SysConfig {
    pub nameservers: Vec<(IpAddr, Option<u16>)>,
    pub domain: Option<String>,
    pub search: Vec<String>,
    pub options: Options,
}

/// Whether a configuration is the default one: no nameserver, no domain, no
/// search list, and the default options.
pub open spec fn spec_is_default_config(config: SysConfig) -> bool {
    &&& config.nameservers@.len() == 0
    &&& config.domain.is_none()
    &&& config.search@.len() == 0
    &&& config.options == spec_default_options()
}

impl Default for SysConfig {
    /// No nameserver, no domain, no search list, and the default options.
    fn default() -> (r: SysConfig)
        ensures
            spec_is_default_config(r),
    {
        SysConfig {
            nameservers: Vec::new(),
            domain: None,
            search: Vec::new(),
            options: Options::default(),
        }
    }
}

/// Why a configuration text was refused.
#[derive(Debug, Clone, PartialEq, Eq)]
pub enum ParseError {
    /// A nameserver that is no IP address.
    InvalidIp(String),
    /// A keyword, or a numeric option, without a value.
    MissingValue { keyword: String },
    /// A numeric option whose value is no number that fits.
    InvalidNumber { keyword: String, value: String },
}

/// The model of a [`ParseError`].
pub enum ParseErrorView {
    InvalidIp(Seq<char>),
    MissingValue { keyword: Seq<char> },
    InvalidNumber { keyword: Seq<char>, value: Seq<char> },
}

impl View for ParseError {
    type V = ParseErrorView;

    open spec fn view(&self) -> ParseErrorView {
        match self {
            ParseError::InvalidIp(s) => ParseErrorView::InvalidIp(s@),
            ParseError::MissingValue { keyword } => ParseErrorView::MissingValue {
                keyword: keyword@,
            },
            ParseError::InvalidNumber { keyword, value } => ParseErrorView::InvalidNumber {
                keyword: keyword@,
                value: value@,
            },
        }
    }
}

/// What a configuration text in the manner of `resolv.conf` holds.
#[derive(Debug, Clone, PartialEq, Eq)]
pub struct ResolvConf {
    pub nameservers: Vec<IpAddr>,
    pub domain: Option<String>,
    pub search: Vec<String>,
    pub options: Options,
}

/// The model of a [`ResolvConf`].
pub struct ResolvConfView {
    pub nameservers: Seq<IpAddr>,
    pub domain: Option<Seq<char>>,
    pub search: Seq<Seq<char>>,
    pub options: Options,
}

impl View for ResolvConf {
    type V = ResolvConfView;

    open spec fn view(&self) -> ResolvConfView {
        ResolvConfView {
            nameservers: self.nameservers@,
            domain: self.domain.deep_view(),
            search: self.search.deep_view(),
            options: self.options,
        }
    }
}

impl Default for ResolvConf {
    /// No nameserver, no domain, no search list, and the default options.
    fn default() -> (r: ResolvConf)
        ensures
            r@ == spec_default_conf(),
    {
        let r = ResolvConf {
            nameservers: Vec::new(),
            domain: None,
            search: Vec::new(),
            options: Options::default(),
        };
        assert(r@.search =~= Seq::<Seq<char>>::empty());
        r
    }
}

impl ResolvConf {
    /// The configuration of a resolver with these settings: the nameservers
    /// in order, none with a port of its own.
    pub fn into_sysconfig(self) -> (config: SysConfig)
        ensures
            config.nameservers@ == Seq::new(
                self.nameservers@.len(),
                |i: int| (self.nameservers@[i], None::<u16>),
            ),
            config.domain == self.domain,
            config.search == self.search,
            config.options == self.options,
    {
        let mut nameservers: Vec<(IpAddr, Option<u16>)> = Vec::new();
        let mut i: usize = 0;
        while i < self.nameservers.len()
            invariant
                i <= self.nameservers@.len(),
                nameservers@ == Seq::new(i as nat, |k: int| (self.nameservers@[k], None::<u16>)),
            decreases self.nameservers@.len() - i,
        {
            nameservers.push((self.nameservers[i], None));
            i += 1;
            assert(nameservers@ =~= Seq::new(
                i as nat,
                |k: int| (self.nameservers@[k], None::<u16>),
            ));
        }
        SysConfig { nameservers, domain: self.domain, search: self.search, options: self.options }
    }
}

/// The configuration that parsing starts from.
pub open spec fn spec_default_conf() -> ResolvConfView {
    ResolvConfView {
        nameservers: seq![],
        domain: None,
        search: seq![],
        options: spec_default_options(),
    }
}

/// Whether a character starts a comment.
pub open spec fn spec_is_comment_start(c: char) -> bool {
    c == ';' || c == '#'
}

/// Whether a character parts the name of an option from its value.
pub open spec fn spec_is_value_sep(c: char) -> bool {
    c == '=' || c == ':'
}

/// Whether a character ends a line.
pub open spec fn spec_is_newline(c: char) -> bool {
    c == '\n'
}

/// A line without its comment and without the whitespace around what is
/// left.
pub open spec fn spec_strip_comment(line: Seq<char>) -> Seq<char> {
    spec_trim(line.take(spec_find_by(line, |c: char| spec_is_comment_start(c))))
}

/// What the value of a numeric option stands for: the number that it
/// denotes, which must not exceed `max`. An empty value is missing; any other
/// that denotes no such number is invalid.
pub open spec fn spec_take_num_arg(keyword: Seq<char>, val: Seq<char>, max: u64) -> Result<
    u64,
    ParseErrorView,
> {
    if val.len() == 0 {
        Err(ParseErrorView::MissingValue { keyword })
    } else if spec_parse_u64(val).is_some() && spec_parse_u64(val).unwrap() <= max {
        Ok(spec_parse_u64(val).unwrap())
    } else {
        Err(ParseErrorView::InvalidNumber { keyword, value: val })
    }
}

/// The name of an option: what stands before its first `=` or `:`.
pub open spec fn spec_option_key(token: Seq<char>) -> Seq<char> {
    token.take(spec_find_by(token, |c: char| spec_is_value_sep(c)))
}

/// The value of an option: what stands behind its first `=` or `:`; empty
/// where it has neither.
pub open spec fn spec_option_val(token: Seq<char>) -> Seq<char> {
    let i = spec_find_by(token, |c: char| spec_is_value_sep(c));
    if i < token.len() {
        token.skip(i + 1)
    } else {
        seq![]
    }
}

/// The options after one more option was applied. An option that is not
/// known changes nothing.
pub open spec fn spec_apply_option(opts: Options, token: Seq<char>) -> Result<
    Options,
    ParseErrorView,
> {
    let key = spec_option_key(token);
    let val = spec_option_val(token);
    if key == "ndots"@ {
        match spec_take_num_arg(key, val, u32::MAX as u64) {
            Ok(n) => Ok(Options { ndots: n as u32, ..opts }),
            Err(e) => Err(e),
        }
    } else if key == "attempts"@ {
        match spec_take_num_arg(key, val, u32::MAX as u64) {
            Ok(n) => Ok(Options { attempts: n as u32, ..opts }),
            Err(e) => Err(e),
        }
    } else if key == "timeout"@ || key == "retrans"@ {
        match spec_take_num_arg(key, val, u64::MAX) {
            Ok(n) => Ok(Options { timeout_secs: n, ..opts }),
            Err(e) => Err(e),
        }
    } else if key == "use-vc"@ || key == "usevc"@ {
        Ok(Options { use_vc: true, ..opts })
    } else if key == "rotate"@ {
        Ok(Options { rotate: true, ..opts })
    } else if key == "inet6"@ {
        Ok(Options { inet6: true, ..opts })
    } else if key == "edns0"@ {
        Ok(Options { edns0: true, ..opts })
    } else {
        Ok(opts)
    }
}

/// The options after a row of options was applied in order, with the error
/// that ended it, if one did: the options applied before it stay.
pub open spec fn spec_apply_options(opts: Options, tokens: Seq<Seq<char>>) -> (
    Options,
    Option<ParseErrorView>,
)
    decreases tokens.len(),
{
    if tokens.len() == 0 {
        (opts, None)
    } else {
        match spec_apply_option(opts, tokens[0]) {
            Err(e) => (opts, Some(e)),
            Ok(next) => spec_apply_options(next, tokens.skip(1)),
        }
    }
}

/// The nameservers `servers` with those that the tokens denote, according
/// to `ip_of`, behind them; the first token that denotes none is an error.
pub open spec fn spec_add_nameservers(
    servers: Seq<IpAddr>,
    tokens: Seq<Seq<char>>,
    ip_of: spec_fn(Seq<char>) -> Option<IpAddr>,
) -> Result<Seq<IpAddr>, ParseErrorView>
    decreases tokens.len(),
{
    if tokens.len() == 0 {
        Ok(servers)
    } else {
        match ip_of(tokens[0]) {
            None => Err(ParseErrorView::InvalidIp(tokens[0])),
            Some(ip) => spec_add_nameservers(servers.push(ip), tokens.skip(1), ip_of),
        }
    }
}

/// The configuration after one more line was read. A line that is empty
/// once its comment is gone changes nothing. Any other line is a keyword and
/// its values, of which there must be one at least: `nameserver` appends
/// addresses, `domain` sets the domain to its first value, `search` appends
/// its values, `options` applies them, and a line with any other keyword
/// changes nothing.
pub open spec fn spec_conf_line(
    conf: ResolvConfView,
    line: Seq<char>,
    ip_of: spec_fn(Seq<char>) -> Option<IpAddr>,
) -> Result<ResolvConfView, ParseErrorView> {
    let parts = spec_words(spec_strip_comment(line));
    if parts.len() == 0 {
        Ok(conf)
    } else if parts.len() == 1 {
        Err(ParseErrorView::MissingValue { keyword: parts[0] })
    } else {
        let keyword = parts[0];
        let rest = parts.skip(1);
        if keyword == "nameserver"@ {
            match spec_add_nameservers(conf.nameservers, rest, ip_of) {
                Ok(nameservers) => Ok(ResolvConfView { nameservers, ..conf }),
                Err(e) => Err(e),
            }
        } else if keyword == "domain"@ {
            Ok(ResolvConfView { domain: Some(rest[0]), ..conf })
        } else if keyword == "search"@ {
            Ok(ResolvConfView { search: conf.search + rest, ..conf })
        } else if keyword == "options"@ {
            match spec_apply_options(conf.options, rest).1 {
                None => Ok(
                    ResolvConfView { options: spec_apply_options(conf.options, rest).0, ..conf },
                ),
                Some(e) => Err(e),
            }
        } else {
            Ok(conf)
        }
    }
}

/// The configuration after a row of lines was read in order; the first error
/// ends it.
pub open spec fn spec_conf_lines(
    conf: ResolvConfView,
    lines: Seq<Seq<char>>,
    ip_of: spec_fn(Seq<char>) -> Option<IpAddr>,
) -> Result<ResolvConfView, ParseErrorView>
    decreases lines.len(),
{
    if lines.len() == 0 {
        Ok(conf)
    } else {
        match spec_conf_line(conf, lines[0], ip_of) {
            Err(e) => Err(e),
            Ok(next) => spec_conf_lines(next, lines.skip(1), ip_of),
        }
    }
}

/// What a configuration text holds, where `ip_of` says which texts are IP
/// addresses: the text is read line by line, starting from the default
/// configuration.
pub open spec fn spec_resolv_conf(s: Seq<char>, ip_of: spec_fn(Seq<char>) -> Option<IpAddr>) -> Result<
    ResolvConfView,
    ParseErrorView,
> {
    spec_conf_lines(spec_default_conf(), spec_split_by(s, |c: char| spec_is_newline(c)), ip_of)
}

/// Whether a character starts a comment.
pub fn is_comment_start(c: char) -> (r: bool)
    ensures
        r == spec_is_comment_start(c),
{
    c == ';' || c == '#'
}

/// Whether a character parts the name of an option from its value.
pub fn is_value_sep(c: char) -> (r: bool)
    ensures
        r == spec_is_value_sep(c),
{
    c == '=' || c == ':'
}

/// Whether a character ends a line.
pub fn is_newline(c: char) -> (r: bool)
    ensures
        r == spec_is_newline(c),
{
    c == '\n'
}

/// Whether two texts are the same.
fn same(a: &str, b: &str) -> (r: bool)
    ensures
        r == (a@ == b@),
{
    let x: String = a.to_owned();
    let y: String = b.to_owned();
    x == y
}

/// A line without its comment, which starts at the first `;` or `#`, and
/// without the whitespace around what is left.
pub fn strip_comment(line: &str) -> (r: String)
    ensures
        r@ == spec_strip_comment(line@),
{
    let cs: Vec<char> = chars_of(line);
    let mut idx: usize = 0;
    while idx < cs.len() && !is_comment_start(cs[idx])
        invariant
            idx <= cs@.len(),
            forall|k: int| 0 <= k < idx ==> !spec_is_comment_start(#[trigger] cs@[k]),
        decreases cs@.len() - idx,
    {
        idx += 1;
    }
    proof {
        lemma_find_by_is(cs@, |c: char| spec_is_comment_start(c), idx as int);
        assert(line@.subrange(0, idx as int) =~= line@.take(idx as int));
    }
    let head: String = substring(line, 0, idx);
    trim(head.as_str())
}

/// Reads the value of a numeric option, which must denote a number of at
/// most `max`.
pub fn take_num_arg(keyword: &str, val: &str, max: u64) -> (r: Result<u64, ParseError>)
    ensures
        match spec_take_num_arg(keyword@, val@, max) {
            Ok(n) => r == Ok::<u64, ParseError>(n),
            Err(e) => r.is_err() && r.unwrap_err()@ == e,
        },
{
    if val.unicode_len() == 0 {
        return Err(ParseError::MissingValue { keyword: keyword.to_owned() });
    }
    match parse_u64(val) {
        Some(n) => {
            if n <= max {
                Ok(n)
            } else {
                Err(ParseError::InvalidNumber { keyword: keyword.to_owned(), value: val.to_owned() })
            }
        },
        None => Err(
            ParseError::InvalidNumber { keyword: keyword.to_owned(), value: val.to_owned() },
        ),
    }
}

/// Applies one option to the options.
fn apply_option(opts: &mut Options, token: &str) -> (r: Result<(), ParseError>)
    ensures
        match spec_apply_option(*old(opts), token@) {
            Ok(next) => r.is_ok() && *final(opts) == next,
            Err(e) => r.is_err() && r.unwrap_err()@ == e && *final(opts) == *old(opts),
        },
{
    let cs: Vec<char> = chars_of(token);
    let mut idx: usize = 0;
    while idx < cs.len() && !is_value_sep(cs[idx])
        invariant
            idx <= cs@.len(),
            forall|k: int| 0 <= k < idx ==> !spec_is_value_sep(#[trigger] cs@[k]),
        decreases cs@.len() - idx,
    {
        idx += 1;
    }
    proof {
        lemma_find_by_is(cs@, |c: char| spec_is_value_sep(c), idx as int);
        assert(token@.subrange(0, idx as int) =~= token@.take(idx as int));
        if idx < cs@.len() {
            assert(token@.subrange(idx + 1, token@.len() as int) =~= token@.skip(idx + 1));
        } else {
            assert(token@.subrange(idx as int, token@.len() as int) =~= Seq::<char>::empty());
        }
    }
    let key_text: String = substring(token, 0, idx);
    let val_text: String = if idx < cs.len() {
        substring(token, idx + 1, cs.len())
    } else {
        substring(token, idx, cs.len())
    };
    let key: &str = key_text.as_str();
    let val: &str = val_text.as_str();
    if same(key, "ndots") {
        let n: u64 = take_num_arg(key, val, u32::MAX as u64)?;
        opts.ndots = n as u32;
    } else if same(key, "attempts") {
        let n: u64 = take_num_arg(key, val, u32::MAX as u64)?;
        opts.attempts = n as u32;
    } else if same(key, "timeout") || same(key, "retrans") {
        let n: u64 = take_num_arg(key, val, u64::MAX)?;
        opts.timeout_secs = n;
    } else if same(key, "use-vc") || same(key, "usevc") {
        opts.use_vc = true;
    } else if same(key, "rotate") {
        opts.rotate = true;
    } else if same(key, "inet6") {
        opts.inet6 = true;
    } else if same(key, "edns0") {
        opts.edns0 = true;
    }
    Ok(())
}

/// Applies a row of options to the options, in order. The first option that
/// is refused ends it; the options applied before it stay.
fn apply_options(opts: &mut Options, tokens: &Vec<String>, from: usize) -> (r: Result<
    (),
    ParseError,
>)
    requires
        from <= tokens@.len(),
    ensures
        *final(opts) == spec_apply_options(*old(opts), tokens.deep_view().skip(from as int)).0,
        match spec_apply_options(*old(opts), tokens.deep_view().skip(from as int)).1 {
            None => r.is_ok(),
            Some(e) => r.is_err() && r.unwrap_err()@ == e,
        },
{
    let ghost all = tokens.deep_view().skip(from as int);
    let mut i: usize = from;
    assert(all.skip(0) =~= all);
    while i < tokens.len()
        invariant
            from <= i <= tokens@.len(),
            all == tokens.deep_view().skip(from as int),
            spec_apply_options(*old(opts), all) == spec_apply_options(*opts, all.skip(i - from)),
        decreases tokens@.len() - i,
    {
        let ghost rest = all.skip(i - from);
        proof {
            assert(rest[0] == tokens[i as int]@);
            assert(rest.skip(1) =~= all.skip(i - from + 1));
        }
        match apply_option(opts, tokens[i].as_str()) {
            Ok(()) => {},
            Err(e) => {
                return Err(e);
            },
        }
        i += 1;
    }
    Ok(())
}

/// Applies the options of a text, which are its words, to the options, in
/// order. An option is a name, or a name and a value with `=` or `:`
/// between them: `ndots`, `attempts`, `timeout` and its other name `retrans`
/// take a number; `use-vc`, `usevc`, `rotate`, `inet6` and `edns0` switch
/// something on; any other is passed over. The first option that is refused
/// ends it, and the options applied before it stay.
pub fn parse_options_into(opts: &mut Options, src: &str) -> (r: Result<(), ParseError>)
    ensures
        *final(opts) == spec_apply_options(*old(opts), spec_words(src@)).0,
        match spec_apply_options(*old(opts), spec_words(src@)).1 {
            None => r.is_ok(),
            Some(e) => r.is_err() && r.unwrap_err()@ == e,
        },
{
    let tokens: Vec<String> = words(src);
    assert(tokens.deep_view().skip(0) =~= tokens.deep_view());
    apply_options(opts, &tokens, 0)
}

/// Whether `ip_of` says of every text what the function `parse_ip` makes of
/// it.
pub open spec fn spec_describes<F: Fn(&str) -> Option<IpAddr>>(
    ip_of: spec_fn(Seq<char>) -> Option<IpAddr>,
    parse_ip: F,
) -> bool {
    forall|t: &str, ip: Option<IpAddr>| call_ensures(parse_ip, (t,), ip) ==> ip == ip_of(t@)
}

/// The model of the outcome of reading a configuration.
pub open spec fn spec_conf_result(r: Result<ResolvConf, ParseError>) -> Result<
    ResolvConfView,
    ParseErrorView,
> {
    match r {
        Ok(conf) => Ok(conf@),
        Err(e) => Err(e@),
    }
}

/// Appends to `servers` the addresses that the tokens from `from` on denote.
fn add_nameservers<F: Fn(&str) -> Option<IpAddr>>(
    servers: &mut Vec<IpAddr>,
    tokens: &Vec<String>,
    from: usize,
    parse_ip: &F,
) -> (r: Result<(), ParseError>)
    requires
        from <= tokens@.len(),
        forall|t: &str| call_requires(*parse_ip, (t,)),
    ensures
        forall|ip_of: spec_fn(Seq<char>) -> Option<IpAddr>|
            spec_describes(ip_of, *parse_ip) ==> match #[trigger] spec_add_nameservers(
                old(servers)@,
                tokens.deep_view().skip(from as int),
                ip_of,
            ) {
                Ok(all) => r.is_ok() && final(servers)@ == all,
                Err(e) => r.is_err() && r.unwrap_err()@ == e,
            },
{
    let ghost all = tokens.deep_view().skip(from as int);
    let ghost before = servers@;
    let mut i: usize = from;
    assert(all.skip(0) =~= all);
    while i < tokens.len()
        invariant
            from <= i <= tokens@.len(),
            all == tokens.deep_view().skip(from as int),
            before == old(servers)@,
            forall|t: &str| call_requires(*parse_ip, (t,)),
            forall|ip_of: spec_fn(Seq<char>) -> Option<IpAddr>|
                spec_describes(ip_of, *parse_ip) ==> #[trigger] spec_add_nameservers(
                    before,
                    all,
                    ip_of,
                ) == spec_add_nameservers(servers@, all.skip(i - from), ip_of),
        decreases tokens@.len() - i,
    {
        let ghost rest = all.skip(i - from);
        let ghost here = servers@;
        let tok: &str = tokens[i].as_str();
        proof {
            assert(rest[0] == tok@);
            assert(rest.skip(1) =~= all.skip(i - from + 1));
        }
        match parse_ip(tok) {
            Some(ip) => {
                servers.push(ip);
                assert forall|ip_of: spec_fn(Seq<char>) -> Option<IpAddr>|
                    spec_describes(ip_of, *parse_ip) implies #[trigger] spec_add_nameservers(
                    before,
                    all,
                    ip_of,
                ) == spec_add_nameservers(servers@, all.skip(i - from + 1), ip_of) by {
                    assert(ip_of(tok@) == Some(ip));
                    assert(spec_add_nameservers(here, rest, ip_of) == spec_add_nameservers(
                        here.push(ip),
                        rest.skip(1),
                        ip_of,
                    ));
                }
            },
            None => {
                let e = ParseError::InvalidIp(tok.to_owned());
                assert forall|ip_of: spec_fn(Seq<char>) -> Option<IpAddr>|
                    spec_describes(ip_of, *parse_ip) implies #[trigger] spec_add_nameservers(
                    before,
                    all,
                    ip_of,
                ) == Err::<Seq<IpAddr>, ParseErrorView>(e@) by {
                    assert(ip_of(tok@).is_none());
                    assert(spec_add_nameservers(here, rest, ip_of) == Err::<
                        Seq<IpAddr>,
                        ParseErrorView,
                    >(ParseErrorView::InvalidIp(tok@)));
                }
                return Err(e);
            },
        }
        i += 1;
    }
    Ok(())
}

/// Reads one line into the configuration.
fn conf_line<F: Fn(&str) -> Option<IpAddr>>(conf: &mut ResolvConf, raw_line: &str, parse_ip: &F) -> (r:
    Result<(), ParseError>)
    requires
        forall|t: &str| call_requires(*parse_ip, (t,)),
    ensures
        forall|ip_of: spec_fn(Seq<char>) -> Option<IpAddr>|
            spec_describes(ip_of, *parse_ip) ==> match #[trigger] spec_conf_line(
                old(conf)@,
                raw_line@,
                ip_of,
            ) {
                Ok(next) => r.is_ok() && final(conf)@ == next,
                Err(e) => r.is_err() && r.unwrap_err()@ == e,
            },
{
    let line: String = strip_comment(raw_line);
    let parts: Vec<String> = words(line.as_str());
    if parts.len() == 0 {
        return Ok(());
    }
    let keyword: &str = parts[0].as_str();
    if parts.len() == 1 {
        return Err(ParseError::MissingValue { keyword: keyword.to_owned() });
    }
    let ghost rest = parts.deep_view().skip(1);
    let ghost before = conf@;
    proof {
        assert(parts.deep_view() == spec_words(spec_strip_comment(raw_line@)));
        assert(parts.deep_view()[0] == keyword@);
    }
    if same(keyword, "nameserver") {
        match add_nameservers(&mut conf.nameservers, &parts, 1, parse_ip) {
            Ok(()) => {
                assert forall|ip_of: spec_fn(Seq<char>) -> Option<IpAddr>|
                    spec_describes(ip_of, *parse_ip) implies #[trigger] spec_conf_line(
                    before,
                    raw_line@,
                    ip_of,
                ) == Ok::<ResolvConfView, ParseErrorView>(conf@) by {
                    assert(spec_add_nameservers(before.nameservers, rest, ip_of) == Ok::<
                        Seq<IpAddr>,
                        ParseErrorView,
                    >(conf.nameservers@));
                }
            },
            Err(e) => {
                assert forall|ip_of: spec_fn(Seq<char>) -> Option<IpAddr>|
                    spec_describes(ip_of, *parse_ip) implies #[trigger] spec_conf_line(
                    before,
                    raw_line@,
                    ip_of,
                ) == Err::<ResolvConfView, ParseErrorView>(e@) by {
                    assert(spec_add_nameservers(before.nameservers, rest, ip_of) == Err::<
                        Seq<IpAddr>,
                        ParseErrorView,
                    >(e@));
                }
                return Err(e);
            },
        }
    } else if same(keyword, "domain") {
        conf.domain = Some(parts[1].clone());
        assert(rest[0] == parts[1]@);
        assert(conf@ == (ResolvConfView { domain: Some(rest[0]), ..before }));
    } else if same(keyword, "search") {
        let mut i: usize = 1;
        assert(rest.take(0) =~= Seq::<Seq<char>>::empty());
        assert(conf.search.deep_view() + rest.take(0) =~= before.search);
        while i < parts.len()
            invariant
                1 <= i <= parts@.len(),
                rest == parts.deep_view().skip(1),
                conf.search.deep_view() == before.search + rest.take(i - 1),
                conf.nameservers == old(conf).nameservers,
                conf.domain == old(conf).domain,
                conf.options == old(conf).options,
            decreases parts@.len() - i,
        {
            let ghost here = conf.search.deep_view();
            conf.search.push(parts[i].clone());
            proof {
                assert(conf.search.deep_view() =~= here.push(parts[i as int]@));
                assert(rest.take(i as int) =~= rest.take(i - 1).push(parts[i as int]@));
                assert(conf.search.deep_view() =~= before.search + rest.take(i as int));
            }
            i += 1;
        }
        assert(rest.take(i - 1) =~= rest);
        assert(conf@ == (ResolvConfView { search: before.search + rest, ..before }));
    } else if same(keyword, "options") {
        match apply_options(&mut conf.options, &parts, 1) {
            Ok(()) => {
                assert(conf@ == (ResolvConfView {
                    options: spec_apply_options(before.options, rest).0,
                    ..before
                }));
            },
            Err(e) => {
                assert(spec_apply_options(before.options, rest).1 == Some(e@));
                return Err(e);
            },
        }
    } else {
        assert(conf@ == before);
    }
    Ok(())
}

impl ResolvConf {
    /// Reads a configuration text, with `parse_ip` to tell which texts are IP
    /// addresses and which addresses they are.
    ///
    /// Whatever function of texts describes `parse_ip`, the outcome is what
    /// [`spec_resolv_conf`] gives for it.
    pub fn from_str<F: Fn(&str) -> Option<IpAddr>>(s: &str, parse_ip: F) -> (r: Result<
        ResolvConf,
        ParseError,
    >)
        requires
            forall|t: &str| call_requires(parse_ip, (t,)),
        ensures
            forall|ip_of: spec_fn(Seq<char>) -> Option<IpAddr>|
                spec_describes(ip_of, parse_ip) ==> spec_conf_result(r)
                    == #[trigger] spec_resolv_conf(s@, ip_of),
    {
        let mut conf: ResolvConf = ResolvConf::default();
        let lines: Vec<String> = split_by(s, &is_newline);
        let ghost all = lines.deep_view();
        assert(all == spec_split_by(s@, |c: char| spec_is_newline(c)));
        let mut i: usize = 0;
        assert(all.skip(0) =~= all);
        while i < lines.len()
            invariant
                i <= lines@.len(),
                all == lines.deep_view(),
                all == spec_split_by(s@, |c: char| spec_is_newline(c)),
                forall|t: &str| call_requires(parse_ip, (t,)),
                forall|ip_of: spec_fn(Seq<char>) -> Option<IpAddr>|
                    spec_describes(ip_of, parse_ip) ==> #[trigger] spec_conf_lines(
                        spec_default_conf(),
                        all,
                        ip_of,
                    ) == spec_conf_lines(conf@, all.skip(i as int), ip_of),
            decreases lines@.len() - i,
        {
            let ghost rest = all.skip(i as int);
            let ghost here = conf@;
            proof {
                assert(rest[0] == lines[i as int]@);
                assert(rest.skip(1) =~= all.skip(i + 1));
            }
            match conf_line(&mut conf, lines[i].as_str(), &parse_ip) {
                Ok(()) => {
                    assert forall|ip_of: spec_fn(Seq<char>) -> Option<IpAddr>|
                        spec_describes(ip_of, parse_ip) implies #[trigger] spec_conf_lines(
                        spec_default_conf(),
                        all,
                        ip_of,
                    ) == spec_conf_lines(conf@, all.skip(i + 1), ip_of) by {
                        assert(spec_conf_line(here, rest[0], ip_of) == Ok::<
                            ResolvConfView,
                            ParseErrorView,
                        >(conf@));
                    }
                },
                Err(e) => {
                    assert forall|ip_of: spec_fn(Seq<char>) -> Option<IpAddr>|
                        spec_describes(ip_of, parse_ip) implies #[trigger] spec_conf_lines(
                        spec_default_conf(),
                        all,
                        ip_of,
                    ) == Err::<ResolvConfView, ParseErrorView>(e@) by {
                        assert(spec_conf_line(here, rest[0], ip_of) == Err::<
                            ResolvConfView,
                            ParseErrorView,
                        >(e@));
                    }
                    return Err(e);
                },
            }
            i += 1;
        }
        Ok(conf)
    }
}

} // verus!
