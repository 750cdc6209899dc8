//! Reading multipathd's configuration (`show config local`) and checking the
//! settings that matter for fencing: queueing (`no_path_retry`) and device loss
//! (`dev_loss_tmo`).
use vstd::prelude::*;
use crate::fencer::{monitored, monitored_indices, mon_of, views};
use crate::multipath::{MapModel, MultipathMap, maps_view, opt_str_view};
use crate::status::{IssueEntries, StatusLevel, StatusTracker, with_issue, without_issue};
use crate::text::{
    chars_of, concat, decimal, is_whitespace, is_ws, join, join_strings, parse_u64, spec_parse_u64,
    str_eq, string_of, u64_to_decimal,
};

verus! {

/// A token of the configuration language.
#[derive(Debug, PartialEq, Eq)]
pub enum Token {
    Word(String),
    OpenBrace,
    CloseBrace,
}

/// The model of a token.
pub enum Tok {
    Word(Seq<char>),
    Open,
    Close,
}

impl View for Token {
    type V = Tok;

    open spec fn view(&self) -> Tok {
        match self {
            Token::Word(w) => Tok::Word(w@),
            Token::OpenBrace => Tok::Open,
            Token::CloseBrace => Tok::Close,
        }
    }
}

pub open spec fn toks(v: Seq<Token>) -> Seq<Tok> {
    v.map_values(|t: Token| t@)
}

/// Where the tokenizer stands: between tokens or inside a word, inside a quoted
/// word, or inside a comment (up to the end of the line).
#[derive(PartialEq, Eq, Structural, Clone, Copy)]
pub enum LexMode {
    Plain,
    Quoted,
    Comment,
}

/// The word read so far, as a token if it is not empty.
pub open spec fn flush(w: Seq<char>) -> Seq<Tok> {
    if w.len() == 0 {
        Seq::empty()
    } else {
        seq![Tok::Word(w)]
    }
}

/// The tokens of the rest `s` of a text, given the word read so far and the mode.
/// White space separates words; `#` and `!` start a comment to the end of the line;
/// braces are tokens of their own; a double quote starts a word that runs to the
/// next lone double quote (a doubled one stands for one quote) and may be empty.
pub open spec fn lex(s: Seq<char>, w: Seq<char>, mode: LexMode) -> Seq<Tok>
    decreases s.len(),
{
    if s.len() == 0 {
        flush(w)
    } else {
        let c = s[0];
        let rest = s.drop_first();
        match mode {
            LexMode::Quoted => if c == '"' {
                if rest.len() > 0 && rest[0] == '"' {
                    lex(rest.drop_first(), w.push('"'), LexMode::Quoted)
                } else {
                    seq![Tok::Word(w)] + lex(rest, Seq::empty(), LexMode::Plain)
                }
            } else {
                lex(rest, w.push(c), LexMode::Quoted)
            },
            LexMode::Comment => if c == '\n' || c == '\r' {
                lex(rest, Seq::empty(), LexMode::Plain)
            } else {
                lex(rest, Seq::empty(), LexMode::Comment)
            },
            LexMode::Plain => if is_ws(c) {
                flush(w) + lex(rest, Seq::empty(), LexMode::Plain)
            } else if c == '#' || c == '!' {
                flush(w) + lex(rest, Seq::empty(), LexMode::Comment)
            } else if c == '{' {
                flush(w) + seq![Tok::Open] + lex(rest, Seq::empty(), LexMode::Plain)
            } else if c == '}' {
                flush(w) + seq![Tok::Close] + lex(rest, Seq::empty(), LexMode::Plain)
            } else if c == '"' {
                flush(w) + lex(rest, Seq::empty(), LexMode::Quoted)
            } else {
                lex(rest, w.push(c), LexMode::Plain)
            },
        }
    }
}

proof fn lemma_lex_quoted(w: Seq<char>, k: int, rest: Seq<char>)
    requires
        0 <= k <= w.len(),
        !w.contains('"'),
        !(rest.len() > 0 && rest[0] == '"'),
    ensures
        lex(w.skip(k) + seq!['"'] + rest, w.take(k), LexMode::Quoted) == seq![Tok::Word(w)] + lex(
            rest,
            Seq::empty(),
            LexMode::Plain,
        ),
    decreases w.len() - k,
{
    let s = w.skip(k) + seq!['"'] + rest;
    if k < w.len() {
        assert(s[0] == w[k]);
        assert(w[k] != '"') by {
            if w[k] == '"' {
                assert(w.contains('"'));
            }
        };
        assert(s.drop_first() =~= w.skip(k + 1) + seq!['"'] + rest);
        assert(w.take(k).push(w[k]) =~= w.take(k + 1));
        lemma_lex_quoted(w, k + 1, rest);
    } else {
        assert(s[0] == '"');
        assert(s.drop_first() =~= rest);
        assert(w.take(k) =~= w);
    }
}

/// Quotes protect what they hold: a quoted word without quotes in it is one word
/// token, braces, comment signs and white space included.
pub proof fn lemma_quoted_word(w: Seq<char>, rest: Seq<char>)
    requires
        !w.contains('"'),
        !(rest.len() > 0 && rest[0] == '"'),
    ensures
        lex(seq!['"'] + w + seq!['"'] + rest, Seq::empty(), LexMode::Plain) == seq![Tok::Word(w)] + lex(
            rest,
            Seq::empty(),
            LexMode::Plain,
        ),
{
    let s = seq!['"'] + w + seq!['"'] + rest;
    assert(s[0] == '"');
    assert(s.drop_first() =~= w.skip(0) + seq!['"'] + rest);
    assert(flush(Seq::<char>::empty()) =~= Seq::<Tok>::empty());
    assert(w.take(0) =~= Seq::<char>::empty());
    lemma_lex_quoted(w, 0, rest);
    assert(flush(Seq::<char>::empty()) + lex(s.drop_first(), Seq::empty(), LexMode::Quoted) =~= lex(
        s.drop_first(),
        Seq::empty(),
        LexMode::Quoted,
    ));
}

/// Emits the word read so far (if any) and starts a new one.
fn flush_word(out: &mut Vec<Token>, w: &mut Vec<char>)
    ensures
        toks(final(out)@) == toks(old(out)@) + flush(old(w)@),
        final(w)@ == Seq::<char>::empty(),
{
    if w.len() > 0 {
        let s = string_of(w.as_slice());
        let ghost before = out@;
        out.push(Token::Word(s));
        assert(toks(out@) =~= toks(before) + flush(old(w)@));
        *w = Vec::new();
    } else {
        assert(toks(out@) =~= toks(out@) + flush(w@));
    }
}

/// Splits a configuration text into words and braces.
pub fn tokenize(config: &str) -> (r: Vec<Token>)
    ensures
        toks(r@) == lex(config@, Seq::empty(), LexMode::Plain),
{
    let s = chars_of(config);
    let mut out: Vec<Token> = Vec::new();
    let mut w: Vec<char> = Vec::new();
    let mut mode = LexMode::Plain;
    let mut i: usize = 0;
    assert(s@.skip(0) =~= s@);
    assert(toks(out@) =~= Seq::<Tok>::empty());
    while i < s.len()
        invariant
            i <= s.len(),
            s@ == config@,
            mode == LexMode::Comment ==> w@.len() == 0,
            lex(config@, Seq::empty(), LexMode::Plain) == toks(out@) + lex(s@.skip(i as int), w@, mode),
        decreases s.len() - i,
    {
        let c = s[i];
        let ghost rest = s@.skip(i as int);
        let ghost pre = toks(out@);
        let ghost w0 = w@;
        assert(rest[0] == c);
        assert(rest.drop_first() =~= s@.skip(i + 1));
        match mode {
            LexMode::Quoted => {
                if c == '"' {
                    if i + 1 < s.len() && s[i + 1] == '"' {
                        assert(rest.drop_first()[0] == s@[i + 1]);
                        assert(rest.drop_first().drop_first() =~= s@.skip(i + 2));
                        w.push('"');
                        assert(lex(rest, w0, LexMode::Quoted) == lex(s@.skip(i + 2), w@, LexMode::Quoted));
                        i = i + 2;
                    } else {
                        let word = string_of(w.as_slice());
                        out.push(Token::Word(word));
                        w = Vec::new();
                        assert(toks(out@) =~= pre + seq![Tok::Word(w0)]);
                        assert(pre + (seq![Tok::Word(w0)] + lex(s@.skip(i + 1), Seq::empty(), LexMode::Plain))
                            =~= toks(out@) + lex(s@.skip(i + 1), Seq::empty(), LexMode::Plain));
                        mode = LexMode::Plain;
                        i = i + 1;
                    }
                } else {
                    w.push(c);
                    assert(lex(rest, w0, LexMode::Quoted) == lex(s@.skip(i + 1), w@, LexMode::Quoted));
                    i = i + 1;
                }
            },
            LexMode::Comment => {
                assert(w@ =~= Seq::<char>::empty());
                if c == '\n' || c == '\r' {
                    mode = LexMode::Plain;
                }
                assert(lex(rest, w0, LexMode::Comment) == lex(s@.skip(i + 1), w@, mode));
                i = i + 1;
            },
            LexMode::Plain => {
                if is_whitespace(c) {
                    flush_word(&mut out, &mut w);
                    assert(pre + (flush(w0) + lex(s@.skip(i + 1), Seq::empty(), LexMode::Plain))
                        =~= toks(out@) + lex(s@.skip(i + 1), Seq::empty(), LexMode::Plain));
                } else if c == '#' || c == '!' {
                    flush_word(&mut out, &mut w);
                    assert(pre + (flush(w0) + lex(s@.skip(i + 1), Seq::empty(), LexMode::Comment))
                        =~= toks(out@) + lex(s@.skip(i + 1), Seq::empty(), LexMode::Comment));
                    mode = LexMode::Comment;
                } else if c == '{' || c == '}' {
                    flush_word(&mut out, &mut w);
                    let ghost mid = toks(out@);
                    let t = if c == '{' {
                        Token::OpenBrace
                    } else {
                        Token::CloseBrace
                    };
                    let ghost tv = t@;
                    out.push(t);
                    assert(toks(out@) =~= mid + seq![tv]);
                    assert(pre + (flush(w0) + seq![tv] + lex(s@.skip(i + 1), Seq::empty(), LexMode::Plain))
                        =~= toks(out@) + lex(s@.skip(i + 1), Seq::empty(), LexMode::Plain));
                } else if c == '"' {
                    flush_word(&mut out, &mut w);
                    assert(pre + (flush(w0) + lex(s@.skip(i + 1), Seq::empty(), LexMode::Quoted))
                        =~= toks(out@) + lex(s@.skip(i + 1), Seq::empty(), LexMode::Quoted));
                    mode = LexMode::Quoted;
                } else {
                    w.push(c);
                    assert(lex(rest, w0, LexMode::Plain) == lex(s@.skip(i + 1), w@, LexMode::Plain));
                }
                i = i + 1;
            },
        }
    }
    assert(s@.skip(i as int) =~= Seq::<char>::empty());
    let ghost pre = toks(out@);
    let ghost w0 = w@;
    flush_word(&mut out, &mut w);
    assert(toks(out@) =~= pre + flush(w0));
    out
}


/// The settings of one configuration section (`defaults`, `overrides` or one `device`).
#[derive(Debug, Default, Clone, PartialEq, Eq)]
pub struct DeviceConfig {
    pub vendor: Option<String>,
    pub product: Option<String>,
    pub dev_loss_tmo: Option<String>,
    pub no_path_retry: Option<String>,
    pub polling_interval: Option<u64>,
}

/// The model of a section's settings.
pub struct DeviceModel {
    pub vendor: Option<Seq<char>>,
    pub product: Option<Seq<char>>,
    pub dev_loss_tmo: Option<Seq<char>>,
    pub no_path_retry: Option<Seq<char>>,
    pub polling_interval: Option<u64>,
}

impl View for DeviceConfig {
    type V = DeviceModel;

    open spec fn view(&self) -> DeviceModel {
        DeviceModel {
            vendor: opt_str_view(self.vendor),
            product: opt_str_view(self.product),
            dev_loss_tmo: opt_str_view(self.dev_loss_tmo),
            no_path_retry: opt_str_view(self.no_path_retry),
            polling_interval: self.polling_interval,
        }
    }
}

pub open spec fn no_settings() -> DeviceModel {
    DeviceModel { vendor: None, product: None, dev_loss_tmo: None, no_path_retry: None, polling_interval: None }
}

/// The sections of a configuration that the daemon reads.
#[derive(Debug, Default, PartialEq, Eq)]
pub struct MultipathConfig {
    pub defaults: DeviceConfig,
    pub devices: Vec<DeviceConfig>,
    pub overrides: DeviceConfig,
}

pub struct ConfigModel {
    pub defaults: DeviceModel,
    pub devices: Seq<DeviceModel>,
    pub overrides: DeviceModel,
}

pub open spec fn devices_view(v: Seq<DeviceConfig>) -> Seq<DeviceModel> {
    v.map_values(|d: DeviceConfig| d@)
}

impl View for MultipathConfig {
    type V = ConfigModel;

    open spec fn view(&self) -> ConfigModel {
        ConfigModel { defaults: self.defaults@, devices: devices_view(self.devices@), overrides: self.overrides@ }
    }
}

pub open spec fn empty_config() -> ConfigModel {
    ConfigModel { defaults: no_settings(), devices: Seq::empty(), overrides: no_settings() }
}

/// The keywords of the configuration language; a word that is one of them is
/// never taken as the value of the key before it.
pub open spec fn known_keys() -> Seq<Seq<char>> {
    seq![
        "vendor"@, "product"@, "dev_loss_tmo"@, "no_path_retry"@, "defaults"@, "devices"@,
        "device"@, "overrides"@, "path_grouping_policy"@, "path_selector"@, "path_checker"@,
        "features"@, "prio"@, "failback"@, "rr_weight"@, "rr_min_io"@, "rr_min_io_rq"@,
        "fast_io_fail_tmo"@, "polling_interval"@,
    ]
}

/// The section's settings after `key value`: the five keys the daemon reads are
/// recorded (`polling_interval` as a `u64`, none if the value is not one); others
/// are ignored.
pub open spec fn set_key(b: DeviceModel, key: Seq<char>, val: Seq<char>) -> DeviceModel {
    if key == "vendor"@ {
        DeviceModel { vendor: Some(val), ..b }
    } else if key == "product"@ {
        DeviceModel { product: Some(val), ..b }
    } else if key == "dev_loss_tmo"@ {
        DeviceModel { dev_loss_tmo: Some(val), ..b }
    } else if key == "no_path_retry"@ {
        DeviceModel { no_path_retry: Some(val), ..b }
    } else if key == "polling_interval"@ {
        DeviceModel { polling_interval: spec_parse_u64(val), ..b }
    } else {
        b
    }
}

/// Whether the token after position `i` is a value: a word that is not a keyword.
pub open spec fn has_value(t: Seq<Tok>, i: int) -> bool {
    i + 1 < t.len() && (t[i + 1] matches Tok::Word(v) && !known_keys().contains(v))
}

pub open spec fn word_of(t: Tok) -> Seq<char> {
    match t {
        Tok::Word(w) => w,
        _ => Seq::empty(),
    }
}

/// Reads the body of a section from position `i` at brace depth `depth`: the
/// settings and the position after the brace that closes it (or the end).
/// Only `key value` pairs at depth 1 count; nested blocks are passed over.
pub open spec fn block_from(t: Seq<Tok>, i: int, depth: nat, b: DeviceModel) -> (DeviceModel, int)
    decreases t.len() - i,
{
    if i < 0 || i >= t.len() {
        (b, i)
    } else {
        match t[i] {
            Tok::Open => block_from(t, i + 1, depth + 1, b),
            Tok::Close => if depth <= 1 {
                (b, i + 1)
            } else {
                block_from(t, i + 1, (depth - 1) as nat, b)
            },
            Tok::Word(key) => if depth == 1 && has_value(t, i) {
                block_from(t, i + 2, depth, set_key(b, key, word_of(t[i + 1])))
            } else {
                block_from(t, i + 1, depth, b)
            },
        }
    }
}

pub proof fn lemma_block_from_bounds(t: Seq<Tok>, i: int, depth: nat, b: DeviceModel)
    requires
        0 <= i <= t.len(),
    ensures
        i <= block_from(t, i, depth, b).1 <= t.len(),
    decreases t.len() - i,
{
    if i < t.len() {
        match t[i] {
            Tok::Open => lemma_block_from_bounds(t, i + 1, depth + 1, b),
            Tok::Close => if depth > 1 {
                lemma_block_from_bounds(t, i + 1, (depth - 1) as nat, b)
            },
            Tok::Word(key) => if depth == 1 && has_value(t, i) {
                lemma_block_from_bounds(t, i + 2, depth, set_key(b, key, word_of(t[i + 1])))
            } else {
                lemma_block_from_bounds(t, i + 1, depth, b)
            },
        }
    }
}

/// Passes over a block whose body starts at `i`, at brace depth `depth`: the
/// position after its closing brace (or the end).
pub open spec fn skip_from(t: Seq<Tok>, i: int, depth: nat) -> int
    decreases t.len() - i,
{
    if i < 0 || i >= t.len() || depth == 0 {
        i
    } else {
        match t[i] {
            Tok::Open => skip_from(t, i + 1, depth + 1),
            Tok::Close => skip_from(t, i + 1, (depth - 1) as nat),
            Tok::Word(_) => skip_from(t, i + 1, depth),
        }
    }
}

pub proof fn lemma_skip_from_bounds(t: Seq<Tok>, i: int, depth: nat)
    requires
        0 <= i <= t.len(),
    ensures
        i <= skip_from(t, i, depth) <= t.len(),
    decreases t.len() - i,
{
    if i < t.len() && depth > 0 {
        match t[i] {
            Tok::Open => lemma_skip_from_bounds(t, i + 1, depth + 1),
            Tok::Close => lemma_skip_from_bounds(t, i + 1, (depth - 1) as nat),
            Tok::Word(_) => lemma_skip_from_bounds(t, i + 1, depth),
        }
    }
}

/// Whether position `i` holds a word and the token after it opens a block.
pub open spec fn opens_block(t: Seq<Tok>, i: int) -> bool {
    i + 1 < t.len() && t[i + 1] is Open
}

/// Where reading goes on after a section word whose block does not open: past the
/// token that followed it.
pub open spec fn after_pair(t: Seq<Tok>, i: int) -> int {
    if i + 1 < t.len() {
        i + 2
    } else {
        i + 1
    }
}

/// Reads the body of a `devices` section from `i`: each `device { .. }` adds its
/// settings; the first unmatched closing brace ends the section.
pub open spec fn devices_from(t: Seq<Tok>, i: int, devs: Seq<DeviceModel>) -> (Seq<DeviceModel>, int)
    decreases t.len() - i,
{
    if i < 0 || i >= t.len() {
        (devs, i)
    } else {
        match t[i] {
            Tok::Close => (devs, i + 1),
            Tok::Open => devices_from(t, i + 1, devs),
            Tok::Word(w) => if w == "device"@ && opens_block(t, i) {
                let r = block_from(t, i + 2, 1, no_settings());
                proof {
                    lemma_block_from_bounds(t, i + 2, 1, no_settings());
                }
                devices_from(t, r.1, devs.push(r.0))
            } else if w == "device"@ {
                devices_from(t, after_pair(t, i), devs)
            } else {
                devices_from(t, i + 1, devs)
            },
        }
    }
}

pub proof fn lemma_devices_from_bounds(t: Seq<Tok>, i: int, devs: Seq<DeviceModel>)
    requires
        0 <= i <= t.len(),
    ensures
        i <= devices_from(t, i, devs).1 <= t.len(),
    decreases t.len() - i,
{
    if i < t.len() {
        match t[i] {
            Tok::Close => {},
            Tok::Open => lemma_devices_from_bounds(t, i + 1, devs),
            Tok::Word(w) => if w == "device"@ && opens_block(t, i) {
                let r = block_from(t, i + 2, 1, no_settings());
                lemma_block_from_bounds(t, i + 2, 1, no_settings());
                lemma_devices_from_bounds(t, r.1, devs.push(r.0));
            } else if w == "device"@ {
                lemma_devices_from_bounds(t, after_pair(t, i), devs);
            } else {
                lemma_devices_from_bounds(t, i + 1, devs);
            },
        }
    }
}

/// Reads a configuration from position `i`: `defaults` and `overrides` blocks set
/// those sections (a later one replaces an earlier one), `devices` blocks add
/// devices, and any other block is passed over.
pub open spec fn config_from(t: Seq<Tok>, i: int, c: ConfigModel) -> ConfigModel
    decreases t.len() - i,
{
    if i < 0 || i >= t.len() {
        c
    } else {
        match t[i] {
            Tok::Word(w) => if !opens_block(t, i) {
                config_from(t, after_pair(t, i), c)
            } else if w == "defaults"@ || w == "overrides"@ {
                let r = block_from(t, i + 2, 1, no_settings());
                proof {
                    lemma_block_from_bounds(t, i + 2, 1, no_settings());
                }
                if w == "defaults"@ {
                    config_from(t, r.1, ConfigModel { defaults: r.0, ..c })
                } else {
                    config_from(t, r.1, ConfigModel { overrides: r.0, ..c })
                }
            } else if w == "devices"@ {
                let r = devices_from(t, i + 2, c.devices);
                proof {
                    lemma_devices_from_bounds(t, i + 2, c.devices);
                }
                config_from(t, r.1, ConfigModel { devices: r.0, ..c })
            } else {
                let j = skip_from(t, i + 2, 1);
                proof {
                    lemma_skip_from_bounds(t, i + 2, 1);
                }
                config_from(t, j, c)
            },
            _ => config_from(t, i + 1, c),
        }
    }
}

/// The configuration a text describes.
pub open spec fn parsed_config(text: Seq<char>) -> ConfigModel {
    config_from(lex(text, Seq::empty(), LexMode::Plain), 0, empty_config())
}

fn no_device_config() -> (r: DeviceConfig)
    ensures
        r@ == no_settings(),
{
    DeviceConfig { vendor: None, product: None, dev_loss_tmo: None, no_path_retry: None, polling_interval: None }
}

/// Whether a word is a keyword of the configuration language.
pub fn is_known_key(s: &str) -> (r: bool)
    ensures
        r == known_keys().contains(s@),
{
    let keys = [
        "vendor", "product", "dev_loss_tmo", "no_path_retry", "defaults", "devices", "device",
        "overrides", "path_grouping_policy", "path_selector", "path_checker", "features", "prio",
        "failback", "rr_weight", "rr_min_io", "rr_min_io_rq", "fast_io_fail_tmo", "polling_interval",
    ];
    let ghost kv = keys@.map_values(|k: &str| k@);
    assert(kv =~= known_keys());
    let mut i: usize = 0;
    while i < keys.len()
        invariant
            i <= keys.len(),
            kv == keys@.map_values(|k: &str| k@),
            kv == known_keys(),
            forall|j: int| 0 <= j < i ==> kv[j] != s@,
        decreases keys.len() - i,
    {
        if str_eq(keys[i], s) {
            assert(known_keys()[i as int] == s@);
            return true;
        }
        i = i + 1;
    }
    false
}

fn apply_key(b: &mut DeviceConfig, key: &str, val: &String)
    ensures
        final(b)@ == set_key(old(b)@, key@, val@),
{
    if str_eq(key, "vendor") {
        b.vendor = Some(val.clone());
    } else if str_eq(key, "product") {
        b.product = Some(val.clone());
    } else if str_eq(key, "dev_loss_tmo") {
        b.dev_loss_tmo = Some(val.clone());
    } else if str_eq(key, "no_path_retry") {
        b.no_path_retry = Some(val.clone());
    } else if str_eq(key, "polling_interval") {
        let cs = chars_of(val.as_str());
        b.polling_interval = parse_u64(cs.as_slice());
    }
}

/// Whether the token after position `i` is a value for the key at `i`.
fn value_follows(tokens: &Vec<Token>, i: usize) -> (r: bool)
    requires
        i < tokens.len(),
    ensures
        r == has_value(toks(tokens@), i as int),
{
    if i + 1 < tokens.len() {
        match &tokens[i + 1] {
            Token::Word(v) => !is_known_key(v.as_str()),
            _ => false,
        }
    } else {
        false
    }
}

/// Reads the body of a section that starts at `start` (just after its opening
/// brace): the settings and the position after the closing brace.
pub fn parse_block(tokens: &Vec<Token>, start: usize) -> (r: (DeviceConfig, usize))
    requires
        start <= tokens.len(),
    ensures
        (r.0@, r.1 as int) == block_from(toks(tokens@), start as int, 1, no_settings()),
        start <= r.1 <= tokens.len(),
{
    let ghost t = toks(tokens@);
    let mut b = no_device_config();
    let mut extra: usize = 0;
    let mut i: usize = start;
    while i < tokens.len()
        invariant
            start <= i <= tokens.len(),
            extra <= i - start,
            t == toks(tokens@),
            block_from(t, start as int, 1, no_settings()) == block_from(t, i as int, (extra + 1) as nat, b@),
        decreases tokens.len() - i,
    {
        assert(t[i as int] == tokens@[i as int]@);
        match &tokens[i] {
            Token::OpenBrace => {
                extra = extra + 1;
                i = i + 1;
            },
            Token::CloseBrace => {
                if extra == 0 {
                    return (b, i + 1);
                }
                extra = extra - 1;
                i = i + 1;
            },
            Token::Word(key) => {
                if extra == 0 && value_follows(tokens, i) {
                    assert(t[i + 1] == tokens@[i + 1]@);
                    match &tokens[i + 1] {
                        Token::Word(val) => apply_key(&mut b, key.as_str(), val),
                        _ => {},
                    }
                    i = i + 2;
                } else {
                    i = i + 1;
                }
            },
        }
    }
    (b, i)
}

/// Passes over a block whose body starts at `start`: the position after its
/// closing brace (or the end).
fn skip_block(tokens: &Vec<Token>, start: usize) -> (r: usize)
    requires
        start <= tokens.len(),
    ensures
        r as int == skip_from(toks(tokens@), start as int, 1),
        start <= r <= tokens.len(),
{
    let ghost t = toks(tokens@);
    let mut extra: usize = 0;
    let mut closed = false;
    let mut i: usize = start;
    while i < tokens.len() && !closed
        invariant
            start <= i <= tokens.len(),
            extra <= i - start,
            closed ==> extra == 0,
            t == toks(tokens@),
            skip_from(t, start as int, 1) == skip_from(
                t,
                i as int,
                if closed {
                    0
                } else {
                    (extra + 1) as nat
                },
            ),
        decreases tokens.len() - i,
    {
        assert(t[i as int] == tokens@[i as int]@);
        match &tokens[i] {
            Token::OpenBrace => extra = extra + 1,
            Token::CloseBrace => {
                if extra == 0 {
                    closed = true;
                } else {
                    extra = extra - 1;
                }
            },
            Token::Word(_) => {},
        }
        i = i + 1;
    }
    i
}

/// Reads the body of a `devices` section that starts at `start`, adding its devices.
fn parse_devices(tokens: &Vec<Token>, start: usize, devices: &mut Vec<DeviceConfig>) -> (r: usize)
    requires
        start <= tokens.len(),
    ensures
        (devices_view(final(devices)@), r as int) == devices_from(
            toks(tokens@),
            start as int,
            devices_view(old(devices)@),
        ),
        start <= r <= tokens.len(),
{
    let ghost t = toks(tokens@);
    let mut i: usize = start;
    while i < tokens.len()
        invariant
            start <= i <= tokens.len(),
            t == toks(tokens@),
            devices_from(t, start as int, devices_view(old(devices)@)) == devices_from(
                t,
                i as int,
                devices_view(devices@),
            ),
        decreases tokens.len() - i,
    {
        assert(t[i as int] == tokens@[i as int]@);
        match &tokens[i] {
            Token::CloseBrace => {
                return i + 1;
            },
            Token::OpenBrace => {
                i = i + 1;
            },
            Token::Word(w) => {
                let is_device = str_eq(w.as_str(), "device");
                let opens = i + 1 < tokens.len() && matches!(&tokens[i + 1], Token::OpenBrace);
                assert(opens == opens_block(t, i as int)) by {
                    if i + 1 < tokens.len() {
                        assert(t[i + 1] == tokens@[i + 1]@);
                    }
                };
                if is_device && opens {
                    let (b, j) = parse_block(tokens, i + 2);
                    let ghost before = devices_view(devices@);
                    devices.push(b);
                    assert(devices_view(devices@) =~= before.push(b@));
                    i = j;
                } else if is_device {
                    i = if i + 1 < tokens.len() {
                        i + 2
                    } else {
                        i + 1
                    };
                } else {
                    i = i + 1;
                }
            },
        }
    }
    i
}

/// Reads the `defaults`, `devices` and `overrides` sections of a configuration text.
pub fn parse_multipath_config(config_str: &str) -> (r: MultipathConfig)
    ensures
        r@ == parsed_config(config_str@),
{
    let tokens = tokenize(config_str);
    let ghost t = toks(tokens@);
    let mut config = MultipathConfig {
        defaults: no_device_config(),
        devices: Vec::new(),
        overrides: no_device_config(),
    };
    assert(devices_view(config.devices@) =~= Seq::<DeviceModel>::empty());
    assert(config@ == empty_config());
    let mut i: usize = 0;
    while i < tokens.len()
        invariant
            i <= tokens.len(),
            t == toks(tokens@),
            t == lex(config_str@, Seq::empty(), LexMode::Plain),
            config_from(t, 0, empty_config()) == config_from(t, i as int, config@),
        decreases tokens.len() - i,
    {
        assert(t[i as int] == tokens@[i as int]@);
        match &tokens[i] {
            Token::Word(w) => {
                let opens = i + 1 < tokens.len() && matches!(&tokens[i + 1], Token::OpenBrace);
                assert(opens == opens_block(t, i as int)) by {
                    if i + 1 < tokens.len() {
                        assert(t[i + 1] == tokens@[i + 1]@);
                    }
                };
                if !opens {
                    i = if i + 1 < tokens.len() {
                        i + 2
                    } else {
                        i + 1
                    };
                } else if str_eq(w.as_str(), "defaults") {
                    let (b, j) = parse_block(&tokens, i + 2);
                    config.defaults = b;
                    i = j;
                } else if str_eq(w.as_str(), "overrides") {
                    let (b, j) = parse_block(&tokens, i + 2);
                    config.overrides = b;
                    i = j;
                } else if str_eq(w.as_str(), "devices") {
                    let j = parse_devices(&tokens, i + 2, &mut config.devices);
                    i = j;
                } else {
                    i = skip_block(&tokens, i + 2);
                }
            },
            _ => {
                i = i + 1;
            },
        }
    }
    config
}


fn opt_string_copy(o: &Option<String>) -> (r: Option<String>)
    ensures
        opt_str_view(r) == opt_str_view(*o),
{
    match o {
        Some(x) => Some(x.clone()),
        None => None,
    }
}

fn copy_device(d: &DeviceConfig) -> (r: DeviceConfig)
    ensures
        r@ == d@,
{
    DeviceConfig {
        vendor: opt_string_copy(&d.vendor),
        product: opt_string_copy(&d.product),
        dev_loss_tmo: opt_string_copy(&d.dev_loss_tmo),
        no_path_retry: opt_string_copy(&d.no_path_retry),
        polling_interval: d.polling_interval,
    }
}

// ---------------------------------------------------------------------------
// Matching devices by vendor and product, and merging their settings.
// ---------------------------------------------------------------------------

/// Whether `regex::Regex::new` accepts a pattern.
pub uninterp spec fn regex_compiles(pattern: Seq<char>) -> bool;

/// What `regex::Regex::is_match` answers for the regex built from `pattern`.
pub uninterp spec fn regex_finds(pattern: Seq<char>, haystack: Seq<char>) -> bool;

#[verifier::external_type_specification]
#[verifier::external_body]
pub struct ExRegex(regex::Regex);

/// A compiled regular expression, with the pattern it was built from.
pub struct Pattern {
    source: String,
    re: regex::Regex,
}

impl View for Pattern {
    type V = Seq<char>;

    closed spec fn view(&self) -> Seq<char> {
        self.source@
    }
}

/// Compiles a pattern with `regex::Regex::new`; `None` when the crate rejects it.
/// The contract names the crate's answer (`regex_compiles`) and ties the compiled
/// regex to its pattern; what the crate accepts is not restated here.
#[verifier::external_body]
fn compile_regex(pattern: &str) -> (r: Option<Pattern>)
    ensures
        r is Some == regex_compiles(pattern@),
        r matches Some(p) ==> p@ == pattern@,
{
    match regex::Regex::new(pattern) {
        Ok(re) => Some(Pattern { source: pattern.to_string(), re }),
        Err(_) => None,
    }
}

/// `regex::Regex::is_match`: whether the regex matches somewhere in the haystack.
/// The contract names the crate's answer as a function of pattern and haystack.
#[verifier::external_body]
fn regex_is_match(p: &Pattern, haystack: &str) -> (r: bool)
    ensures
        r == regex_finds(p@, haystack@),
{
    p.re.is_match(haystack)
}

/// Whether an optional vendor or product pattern admits a text: an absent pattern
/// admits everything, a pattern the regex crate rejects admits nothing.
pub open spec fn pattern_matches(p: Option<Seq<char>>, text: Seq<char>) -> bool {
    match p {
        None => true,
        Some(p) => regex_compiles(p) && regex_finds(p, text),
    }
}

/// Whether a device entry applies to a device with that vendor and product.
pub open spec fn device_applies(d: DeviceModel, vendor: Seq<char>, product: Seq<char>) -> bool {
    pattern_matches(d.vendor, vendor) && pattern_matches(d.product, product)
}

/// The settings after laying `d` over `m`: each of `dev_loss_tmo`, `no_path_retry`
/// and `polling_interval` that `d` sets replaces the one of `m`.
pub open spec fn overlay(m: DeviceModel, d: DeviceModel) -> DeviceModel {
    DeviceModel {
        dev_loss_tmo: if d.dev_loss_tmo is Some {
            d.dev_loss_tmo
        } else {
            m.dev_loss_tmo
        },
        no_path_retry: if d.no_path_retry is Some {
            d.no_path_retry
        } else {
            m.no_path_retry
        },
        polling_interval: if d.polling_interval is Some {
            d.polling_interval
        } else {
            m.polling_interval
        },
        ..m
    }
}

/// The settings after laying each applying device entry over `m`, in order.
pub open spec fn overlay_devices(m: DeviceModel, devs: Seq<DeviceModel>, applies: Seq<bool>) -> DeviceModel
    decreases devs.len(),
{
    if devs.len() == 0 {
        m
    } else {
        let prev = overlay_devices(m, devs.drop_last(), applies.drop_last());
        if applies[devs.len() - 1] {
            overlay(prev, devs.last())
        } else {
            prev
        }
    }
}

/// The merged settings: the defaults, then each applying device entry, then the overrides.
pub open spec fn merged_settings(
    defaults: DeviceModel,
    devs: Seq<DeviceModel>,
    applies: Seq<bool>,
    overrides: DeviceModel,
) -> DeviceModel {
    overlay(overlay_devices(defaults, devs, applies), overrides)
}

/// The merged settings of a configuration for a device with that vendor and product.
pub open spec fn merged_for(c: ConfigModel, vendor: Seq<char>, product: Seq<char>) -> DeviceModel {
    merged_settings(
        c.defaults,
        c.devices,
        c.devices.map_values(|d: DeviceModel| device_applies(d, vendor, product)),
        c.overrides,
    )
}

fn overlay_into(m: &mut DeviceConfig, d: &DeviceConfig)
    ensures
        final(m)@ == overlay(old(m)@, d@),
{
    if d.dev_loss_tmo.is_some() {
        m.dev_loss_tmo = opt_string_copy(&d.dev_loss_tmo);
    }
    if d.no_path_retry.is_some() {
        m.no_path_retry = opt_string_copy(&d.no_path_retry);
    }
    if d.polling_interval.is_some() {
        m.polling_interval = d.polling_interval;
    }
}

/// Merges settings given which device entries apply: the defaults, then each
/// applying device entry in order, then the overrides.
pub fn merge_device_configs(
    defaults: &DeviceConfig,
    devices: &[DeviceConfig],
    applies: &[bool],
    overrides: &DeviceConfig,
) -> (r: DeviceConfig)
    requires
        applies.len() == devices.len(),
    ensures
        r@ == merged_settings(defaults@, devices_view(devices@), applies@, overrides@),
{
    let mut merged = copy_device(defaults);
    let mut i: usize = 0;
    while i < devices.len()
        invariant
            i <= devices.len(),
            applies.len() == devices.len(),
            merged@ == overlay_devices(defaults@, devices_view(devices@).take(i as int), applies@.take(i as int)),
        decreases devices.len() - i,
    {
        assert(devices_view(devices@).take(i + 1).drop_last() =~= devices_view(devices@).take(i as int));
        assert(applies@.take(i + 1).drop_last() =~= applies@.take(i as int));
        if applies[i] {
            overlay_into(&mut merged, &devices[i]);
        }
        i = i + 1;
    }
    assert(devices_view(devices@).take(devices.len() as int) =~= devices_view(devices@));
    assert(applies@.take(devices.len() as int) =~= applies@);
    overlay_into(&mut merged, overrides);
    merged
}

/// Whether an optional pattern admits a text, compiling it on the spot.
fn optional_pattern_matches(p: &Option<String>, text: &str) -> (r: bool)
    ensures
        r == pattern_matches(opt_str_view(*p), text@),
{
    match p {
        None => true,
        Some(pat) => match compile_regex(pat.as_str()) {
            Some(re) => regex_is_match(&re, text),
            None => false,
        },
    }
}

/// The settings that apply to a device with that vendor and product: the defaults,
/// then each device entry whose vendor and product patterns match, then the overrides.
pub fn get_merged_config(config: &MultipathConfig, vendor: &str, product: &str) -> (r: DeviceConfig)
    ensures
        r@ == merged_for(config@, vendor@, product@),
{
    let ghost devs = devices_view(config.devices@);
    let mut applies: Vec<bool> = Vec::new();
    let mut i: usize = 0;
    while i < config.devices.len()
        invariant
            i <= config.devices.len(),
            devs == devices_view(config.devices@),
            applies@ == devs.take(i as int).map_values(|d: DeviceModel| device_applies(d, vendor@, product@)),
        decreases config.devices.len() - i,
    {
        let d = &config.devices[i];
        let a = optional_pattern_matches(&d.vendor, vendor) && optional_pattern_matches(&d.product, product);
        let ghost before = applies@;
        applies.push(a);
        assert(devs.take(i + 1) =~= devs.take(i as int).push(d@));
        assert(applies@ =~= before.push(device_applies(d@, vendor@, product@)));
        assert(applies@ =~= devs.take(i + 1).map_values(|d: DeviceModel| device_applies(d, vendor@, product@)));
        i = i + 1;
    }
    assert(devs.take(config.devices.len() as int) =~= devs);
    merge_device_configs(&config.defaults, config.devices.as_slice(), applies.as_slice(), &config.overrides)
}

/// A device entry's vendor or product pattern, compiled once.
pub enum CompiledPattern {
    /// No pattern was given: matches everything.
    Absent,
    /// The pattern was rejected by the regex crate: matches nothing.
    Invalid,
    Compiled(Pattern),
}

/// Whether a compiled pattern stands for the optional pattern it was built from.
pub open spec fn compiled_from(cp: CompiledPattern, p: Option<Seq<char>>) -> bool {
    match cp {
        CompiledPattern::Absent => p is None,
        CompiledPattern::Invalid => p matches Some(q) && !regex_compiles(q),
        CompiledPattern::Compiled(re) => p matches Some(q) && regex_compiles(q) && re@ == q,
    }
}

/// A device entry with its patterns compiled.
pub struct CompiledDevice {
    pub vendor: CompiledPattern,
    pub product: CompiledPattern,
    pub config: DeviceConfig,
}

pub open spec fn compiled_device_from(cd: CompiledDevice, d: DeviceModel) -> bool {
    &&& compiled_from(cd.vendor, d.vendor)
    &&& compiled_from(cd.product, d.product)
    &&& cd.config@ == d
}

fn compile_optional(p: &Option<String>) -> (r: CompiledPattern)
    ensures
        compiled_from(r, opt_str_view(*p)),
{
    match p {
        None => CompiledPattern::Absent,
        Some(pat) => match compile_regex(pat.as_str()) {
            Some(re) => CompiledPattern::Compiled(re),
            None => CompiledPattern::Invalid,
        },
    }
}

/// Compiles the vendor and product patterns of every device entry, in order.
pub fn compile_devices(config: &MultipathConfig) -> (r: Vec<CompiledDevice>)
    ensures
        r.len() == config.devices.len(),
        forall|i: int| 0 <= i < r.len() ==> compiled_device_from(#[trigger] r@[i], config.devices@[i]@),
{
    let mut r: Vec<CompiledDevice> = Vec::new();
    let mut i: usize = 0;
    while i < config.devices.len()
        invariant
            i <= config.devices.len(),
            r.len() == i,
            forall|k: int| 0 <= k < i ==> compiled_device_from(#[trigger] r@[k], config.devices@[k]@),
        decreases config.devices.len() - i,
    {
        let d = &config.devices[i];
        let vendor = compile_optional(&d.vendor);
        let product = compile_optional(&d.product);
        r.push(CompiledDevice { vendor, product, config: copy_device(d) });
        i = i + 1;
    }
    r
}

fn compiled_matches(cp: &CompiledPattern, text: &str) -> (r: bool)
    ensures
        forall|p: Option<Seq<char>>| compiled_from(*cp, p) ==> r == pattern_matches(p, text@),
{
    match cp {
        CompiledPattern::Absent => true,
        CompiledPattern::Invalid => false,
        CompiledPattern::Compiled(re) => regex_is_match(re, text),
    }
}

/// The merged settings for a device, matching it against compiled device entries;
/// the same as `get_merged_config` on the configuration they were compiled from.
pub fn get_merged_config_compiled(
    defaults: &DeviceConfig,
    compiled_devices: &[CompiledDevice],
    overrides: &DeviceConfig,
    vendor: &str,
    product: &str,
) -> (r: DeviceConfig)
    ensures
        forall|devs: Seq<DeviceModel>|
            devs.len() == compiled_devices.len() && (forall|i: int|
                0 <= i < devs.len() ==> compiled_device_from(#[trigger] compiled_devices@[i], devs[i]))
                ==> r@ == merged_settings(
                defaults@,
                devs,
                devs.map_values(|d: DeviceModel| device_applies(d, vendor@, product@)),
                overrides@,
            ),
{
    let mut merged = copy_device(defaults);
    let mut i: usize = 0;
    while i < compiled_devices.len()
        invariant
            i <= compiled_devices.len(),
            forall|devs: Seq<DeviceModel>|
                devs.len() == compiled_devices.len() && (forall|k: int|
                    0 <= k < devs.len() ==> compiled_device_from(#[trigger] compiled_devices@[k], devs[k]))
                    ==> merged@ == overlay_devices(
                    defaults@,
                    devs.take(i as int),
                    devs.map_values(|d: DeviceModel| device_applies(d, vendor@, product@)).take(i as int),
                ),
        decreases compiled_devices.len() - i,
    {
        let cd = &compiled_devices[i];
        let vm = compiled_matches(&cd.vendor, vendor);
        let pm = compiled_matches(&cd.product, product);
        let ghost before = merged@;
        if vm && pm {
            overlay_into(&mut merged, &cd.config);
        }
        assert forall|devs: Seq<DeviceModel>|
            devs.len() == compiled_devices.len() && (forall|k: int|
                0 <= k < devs.len() ==> compiled_device_from(#[trigger] compiled_devices@[k], devs[k]))
                implies merged@ == overlay_devices(
                defaults@,
                devs.take(i + 1),
                devs.map_values(|d: DeviceModel| device_applies(d, vendor@, product@)).take(i + 1),
            ) by {
            let ap = devs.map_values(|d: DeviceModel| device_applies(d, vendor@, product@));
            assert(compiled_device_from(compiled_devices@[i as int], devs[i as int]));
            assert(devs.take(i + 1).drop_last() =~= devs.take(i as int));
            assert(ap.take(i + 1).drop_last() =~= ap.take(i as int));
            assert(devs.take(i + 1).last() == devs[i as int]);
            assert(ap.take(i + 1)[i as int] == ap[i as int]);
        }
        i = i + 1;
    }
    proof {
        assert forall|devs: Seq<DeviceModel>|
            devs.len() == compiled_devices.len() && (forall|k: int|
                0 <= k < devs.len() ==> compiled_device_from(#[trigger] compiled_devices@[k], devs[k]))
                implies merged@ == overlay_devices(
                defaults@,
                devs,
                devs.map_values(|d: DeviceModel| device_applies(d, vendor@, product@)),
            ) by {
            assert(devs.take(i as int) =~= devs);
            assert(devs.map_values(|d: DeviceModel| device_applies(d, vendor@, product@)).take(i as int)
                =~= devs.map_values(|d: DeviceModel| device_applies(d, vendor@, product@)));
        }
    }
    overlay_into(&mut merged, overrides);
    merged
}


// ---------------------------------------------------------------------------
// Checking the merged settings against the fencing time.
// ---------------------------------------------------------------------------

/// The path checker interval that applies (multipathd's default is 5 s).
pub open spec fn polling_of(d: DeviceModel) -> u64 {
    match d.polling_interval {
        Some(p) => p,
        None => 5,
    }
}

/// How long I/O is queued when all paths are gone: `no_path_retry` retries of one
/// polling interval each, when `no_path_retry` is a positive number.
pub open spec fn queue_time(d: DeviceModel) -> Option<nat> {
    match d.no_path_retry {
        Some(v) => match spec_parse_u64(v) {
            Some(n) => if n != 0 {
                Some((n * polling_of(d)) as nat)
            } else {
                None
            },
            None => None,
        },
        None => None,
    }
}

/// Whether the queue time fits in 64 bits (the checks compute it as a `u64`).
pub open spec fn queue_time_fits(d: DeviceModel) -> bool {
    match queue_time(d) {
        Some(q) => q <= u64::MAX,
        None => true,
    }
}

pub open spec fn low_queue_message(v: Seq<char>, qt: nat, poll: nat, min: nat) -> Seq<char> {
    "no_path_retry is set to '"@ + v + "', yielding a queue time of "@ + decimal(qt) + "s (with "@
        + decimal(poll) + "s polling_interval). This is too low (expected >= "@ + decimal(min)
        + "s to allow fencing)"@
}

/// The warnings about `no_path_retry`: it must queue (`queue`, or a positive number
/// of retries whose queue time is at least the fencing time plus 15 s).
pub open spec fn retry_warnings(d: DeviceModel, fencing: u64) -> Seq<Seq<char>> {
    match d.no_path_retry {
        None => seq!["no_path_retry is not configured (expected 'queue' or a safe high numeric value)"@],
        Some(v) => if v == "queue"@ {
            Seq::empty()
        } else {
            match spec_parse_u64(v) {
                Some(n) => if n == 0 {
                    seq![
                        "no_path_retry is set to '0' (queueing disabled). Expected 'queue' or a safe high numeric value"@,
                    ]
                } else if n * polling_of(d) < fencing + 15 {
                    seq![low_queue_message(v, (n * polling_of(d)) as nat, polling_of(d) as nat, (fencing + 15) as nat)]
                } else {
                    Seq::empty()
                },
                None => if v == "fail"@ {
                    seq![
                        "no_path_retry is set to 'fail' (queueing disabled). Expected 'queue' or a safe high numeric value"@,
                    ]
                } else {
                    seq!["no_path_retry is set to '"@ + v + "' instead of 'queue' or a safe high numeric value"@]
                },
            }
        },
    }
}

/// The warnings about `dev_loss_tmo`: it must be `infinity`, or a number of at
/// least the fencing time plus 60 s and above the queue time.
pub open spec fn loss_warnings(d: DeviceModel, fencing: u64) -> Seq<Seq<char>> {
    match d.dev_loss_tmo {
        None => seq!["dev_loss_tmo is not configured (expected 'infinity' or a safe high number)"@],
        Some(v) => if v == "infinity"@ {
            Seq::empty()
        } else {
            match spec_parse_u64(v) {
                Some(n) => (if n < fencing + 60 {
                    seq![
                        "dev_loss_tmo is set to '"@ + v + "' which is too low (expected 'infinity' or >= "@
                            + decimal((fencing + 60) as nat) + ")"@,
                    ]
                } else {
                    Seq::empty()
                }) + (match queue_time(d) {
                    Some(q) => if n <= q {
                        seq![
                            "dev_loss_tmo ("@ + decimal(n as nat) + "s) must be strictly greater than no_path_retry queue time ("@
                                + decimal(q) + "s) to avoid deadlocks"@,
                        ]
                    } else {
                        Seq::empty()
                    },
                    None => Seq::empty(),
                }),
                None => seq!["dev_loss_tmo is set to '"@ + v + "' instead of 'infinity' or a safe high number"@],
            }
        },
    }
}

/// All warnings about merged settings, `no_path_retry` ones first.
pub open spec fn validation_warnings(d: DeviceModel, fencing: u64) -> Seq<Seq<char>> {
    retry_warnings(d, fencing) + loss_warnings(d, fencing)
}

fn append(a: String, b: &str) -> (r: String)
    ensures
        r@ == a@ + b@,
{
    let mut a = a;
    a.append(b);
    a
}

fn retry_warnings_exec(merged: &DeviceConfig, fencing_time_sec: u64, out: &mut Vec<String>)
    requires
        fencing_time_sec <= u64::MAX - 60,
        queue_time_fits(merged@),
    ensures
        views(final(out)@) == views(old(out)@) + retry_warnings(merged@, fencing_time_sec),
{
    let ghost before = views(out@);
    let polling_interval: u64 = match merged.polling_interval {
        Some(p) => p,
        None => 5,
    };
    let min_queue_time = fencing_time_sec + 15;
    match &merged.no_path_retry {
        None => {
            out.push(
                "no_path_retry is not configured (expected 'queue' or a safe high numeric value)".to_string(),
            );
        },
        Some(val) => {
            if !str_eq(val.as_str(), "queue") {
                let cs = chars_of(val.as_str());
                match parse_u64(cs.as_slice()) {
                    Some(num) => {
                        if num == 0 {
                            out.push(
                                "no_path_retry is set to '0' (queueing disabled). Expected 'queue' or a safe high numeric value".to_string(),
                            );
                        } else {
                            let qt = num * polling_interval;
                            if qt < min_queue_time {
                                let m1 = concat("no_path_retry is set to '", val.as_str());
                                let m2 = append(m1, "', yielding a queue time of ");
                                let m3 = append(m2, u64_to_decimal(qt).as_str());
                                let m4 = append(m3, "s (with ");
                                let m5 = append(m4, u64_to_decimal(polling_interval).as_str());
                                let m6 = append(m5, "s polling_interval). This is too low (expected >= ");
                                let m7 = append(m6, u64_to_decimal(min_queue_time).as_str());
                                let m8 = append(m7, "s to allow fencing)");
                                out.push(m8);
                            }
                        }
                    },
                    None => {
                        if str_eq(val.as_str(), "fail") {
                            out.push(
                                "no_path_retry is set to 'fail' (queueing disabled). Expected 'queue' or a safe high numeric value".to_string(),
                            );
                        } else {
                            let m1 = concat("no_path_retry is set to '", val.as_str());
                            let m2 = append(m1, "' instead of 'queue' or a safe high numeric value");
                            out.push(m2);
                        }
                    },
                }
            }
        },
    }
    assert(views(out@) =~= before + retry_warnings(merged@, fencing_time_sec));
}

fn loss_warnings_exec(merged: &DeviceConfig, fencing_time_sec: u64, out: &mut Vec<String>)
    requires
        fencing_time_sec <= u64::MAX - 60,
        queue_time_fits(merged@),
    ensures
        views(final(out)@) == views(old(out)@) + loss_warnings(merged@, fencing_time_sec),
{
    let ghost before = views(out@);
    let polling_interval: u64 = match merged.polling_interval {
        Some(p) => p,
        None => 5,
    };
    let queue_time_sec: Option<u64> = match &merged.no_path_retry {
        Some(v) => {
            let cs = chars_of(v.as_str());
            match parse_u64(cs.as_slice()) {
                Some(n) => if n != 0 {
                    Some(n * polling_interval)
                } else {
                    None
                },
                None => None,
            }
        },
        None => None,
    };
    let min_dev_loss_tmo = fencing_time_sec + 60;
    match &merged.dev_loss_tmo {
        None => {
            out.push("dev_loss_tmo is not configured (expected 'infinity' or a safe high number)".to_string());
            assert(views(out@) =~= before + loss_warnings(merged@, fencing_time_sec));
        },
        Some(val) => {
            if str_eq(val.as_str(), "infinity") {
                assert(views(out@) =~= before + loss_warnings(merged@, fencing_time_sec));
            } else {
                let cs = chars_of(val.as_str());
                match parse_u64(cs.as_slice()) {
                    Some(num) => {
                        let ghost first: Seq<Seq<char>> = if num < min_dev_loss_tmo {
                            seq![
                                "dev_loss_tmo is set to '"@ + val@ + "' which is too low (expected 'infinity' or >= "@
                                    + decimal(min_dev_loss_tmo as nat) + ")"@,
                            ]
                        } else {
                            Seq::empty()
                        };
                        if num < min_dev_loss_tmo {
                            let m1 = concat("dev_loss_tmo is set to '", val.as_str());
                            let m2 = append(m1, "' which is too low (expected 'infinity' or >= ");
                            let m3 = append(m2, u64_to_decimal(min_dev_loss_tmo).as_str());
                            let m4 = append(m3, ")");
                            out.push(m4);
                        }
                        assert(views(out@) =~= before + first);
                        let ghost mid = views(out@);
                        match queue_time_sec {
                            Some(qt) => {
                                if num <= qt {
                                    let m1 = concat("dev_loss_tmo (", u64_to_decimal(num).as_str());
                                    let m2 = append(m1, "s) must be strictly greater than no_path_retry queue time (");
                                    let m3 = append(m2, u64_to_decimal(qt).as_str());
                                    let m4 = append(m3, "s) to avoid deadlocks");
                                    out.push(m4);
                                }
                            },
                            None => {},
                        }
                        assert(views(out@) =~= before + loss_warnings(merged@, fencing_time_sec));
                    },
                    None => {
                        let m1 = concat("dev_loss_tmo is set to '", val.as_str());
                        let m2 = append(m1, "' instead of 'infinity' or a safe high number");
                        out.push(m2);
                        assert(views(out@) =~= before + loss_warnings(merged@, fencing_time_sec));
                    },
                }
            }
        },
    }
}

/// The warnings about merged settings for a given fencing time (in seconds):
/// queueing must be on and last at least the fencing time plus 15 s, and
/// `dev_loss_tmo` must be `infinity` or at least the fencing time plus 60 s and
/// above the queue time.
pub fn validate_merged_device_config(merged: &DeviceConfig, fencing_time_sec: u64) -> (r: Vec<String>)
    requires
        fencing_time_sec <= u64::MAX - 60,
        queue_time_fits(merged@),
    ensures
        views(r@) == validation_warnings(merged@, fencing_time_sec),
{
    let mut out: Vec<String> = Vec::new();
    assert(views(out@) =~= Seq::<Seq<char>>::empty());
    retry_warnings_exec(merged, fencing_time_sec, &mut out);
    loss_warnings_exec(merged, fencing_time_sec, &mut out);
    assert(views(out@) =~= validation_warnings(merged@, fencing_time_sec));
    out
}


// ---------------------------------------------------------------------------
// Checking the maps in use against the configuration.
// ---------------------------------------------------------------------------

pub open spec fn text_or_empty(o: Option<Seq<char>>) -> Seq<char> {
    match o {
        Some(t) => t,
        None => Seq::empty(),
    }
}

/// The maps in use by a running VM, in report order.
pub open spec fn in_use_maps(maps: Seq<MapModel>, luns: Seq<Seq<char>>) -> Seq<MapModel> {
    monitored(maps, luns, Seq::empty())
}

/// The merged settings that apply to a map, by its vendor and product (empty when unknown).
pub open spec fn settings_for_map(c: ConfigModel, m: MapModel) -> DeviceModel {
    merged_for(c, text_or_empty(m.vend), text_or_empty(m.prod))
}

pub open spec fn map_warning_line(m: MapModel, ws: Seq<Seq<char>>) -> Seq<char> {
    "Map "@ + m.name + " (vendor: "@ + text_or_empty(m.vend) + ", product: "@ + text_or_empty(m.prod) + "): "@
        + join(ws, ", "@)
}

/// One line for each map (in order) whose merged settings draw warnings.
pub open spec fn config_warning_lines(mon: Seq<MapModel>, c: ConfigModel, fencing: u64) -> Seq<Seq<char>>
    decreases mon.len(),
{
    if mon.len() == 0 {
        Seq::empty()
    } else {
        let prev = config_warning_lines(mon.drop_last(), c, fencing);
        let ws = validation_warnings(settings_for_map(c, mon.last()), fencing);
        if ws.len() > 0 {
            prev.push(map_warning_line(mon.last(), ws))
        } else {
            prev
        }
    }
}

/// Whether the checks can compute every queue time of the maps in use.
pub open spec fn config_checkable(maps: Seq<MapModel>, luns: Seq<Seq<char>>, c: ConfigModel) -> bool {
    forall|i: int|
        0 <= i < in_use_maps(maps, luns).len() ==> queue_time_fits(
            #[trigger] settings_for_map(c, in_use_maps(maps, luns)[i]),
        )
}

/// The issues after a check: a `config_warnings` warning holding every line, or
/// no such issue when there are no lines.
pub open spec fn config_warning_entries(e: IssueEntries, lines: Seq<Seq<char>>) -> IssueEntries {
    if lines.len() == 0 {
        without_issue(e, "config_warnings"@)
    } else {
        with_issue(
            e,
            "config_warnings"@,
            StatusLevel::Warning,
            "Multipath configuration recommendation warnings: "@ + join(lines, "; "@),
        )
    }
}

fn map_vendor_product(m: &MultipathMap) -> (r: (&str, &str))
    ensures
        r.0@ == text_or_empty(m@.vend),
        r.1@ == text_or_empty(m@.prod),
{
    let v: &str = match &m.vend {
        Some(x) => x.as_str(),
        None => "",
    };
    let p: &str = match &m.prod {
        Some(x) => x.as_str(),
        None => "",
    };
    proof {
        reveal_strlit("");
    }
    (v, p)
}

/// The merged settings of every map in use, in order.
fn settings_in_use(
    maps: &[MultipathMap],
    active_luns: &[String],
    parsed: &MultipathConfig,
) -> (r: (Vec<usize>, Vec<DeviceConfig>))
    ensures
        r.0.len() == r.1.len(),
        forall|k: int| 0 <= k < r.0.len() ==> r.0@[k] < maps.len(),
        mon_of(maps@, r.0@) == in_use_maps(maps_view(maps@), views(active_luns@)),
        forall|k: int| 0 <= k < r.1.len() ==> (#[trigger] r.1@[k])@ == settings_for_map(parsed@, maps@[r.0@[k] as int]@),
{
    let compiled = compile_devices(parsed);
    let no_targets: Vec<String> = Vec::new();
    assert(views(no_targets@) =~= Seq::<Seq<char>>::empty());
    let idx = monitored_indices(maps, active_luns, no_targets.as_slice());
    assert(mon_of(maps@, idx@) =~= idx@.map_values(|i: usize| maps@[i as int]@));
    let ghost devs = devices_view(parsed.devices@);
    let mut out: Vec<DeviceConfig> = Vec::new();
    let mut j: usize = 0;
    while j < idx.len()
        invariant
            j <= idx.len(),
            out.len() == j,
            devs == devices_view(parsed.devices@),
            compiled.len() == parsed.devices.len(),
            forall|i: int| 0 <= i < compiled.len() ==> compiled_device_from(#[trigger] compiled@[i], parsed.devices@[i]@),
            forall|k: int| 0 <= k < idx.len() ==> idx@[k] < maps.len(),
            forall|k: int| 0 <= k < j ==> (#[trigger] out@[k])@ == settings_for_map(parsed@, maps@[idx@[k] as int]@),
        decreases idx.len() - j,
    {
        let m = &maps[idx[j]];
        let (vendor, product) = map_vendor_product(m);
        let merged = get_merged_config_compiled(
            &parsed.defaults,
            compiled.as_slice(),
            &parsed.overrides,
            vendor,
            product,
        );
        assert(forall|i: int| 0 <= i < devs.len() ==> compiled_device_from(#[trigger] compiled@[i], devs[i]));
        assert(merged@ == settings_for_map(parsed@, m@));
        out.push(merged);
        j = j + 1;
    }
    (idx, out)
}

/// Whether the queue time of merged settings fits in 64 bits.
fn queue_time_fits_exec(d: &DeviceConfig) -> (r: bool)
    ensures
        r == queue_time_fits(d@),
{
    let poll: u64 = match d.polling_interval {
        Some(p) => p,
        None => 5,
    };
    match &d.no_path_retry {
        Some(v) => {
            let cs = chars_of(v.as_str());
            match parse_u64(cs.as_slice()) {
                Some(n) => {
                    if n == 0 || poll == 0 {
                        assert(n * poll == 0) by (nonlinear_arith)
                            requires n == 0 || poll == 0;
                        true
                    } else {
                        let ok = n <= u64::MAX / poll;
                        assert(ok == (n * poll <= u64::MAX)) by (nonlinear_arith)
                            requires
                                poll > 0,
                                ok == (n <= u64::MAX / poll),
                        ;
                        ok
                    }
                },
                None => true,
            }
        },
        None => true,
    }
}

/// Checks the multipath settings of every map in use against the fencing time and
/// records the outcome as the `config_warnings` issue (cleared when all is well).
pub fn check_maps_config(
    maps: &[MultipathMap],
    active_luns: &[String],
    config_str: &str,
    fencing_time_sec: u64,
    status: &mut StatusTracker,
)
    requires
        old(status).wf(),
        fencing_time_sec <= u64::MAX - 60,
        config_checkable(maps_view(maps@), views(active_luns@), parsed_config(config_str@)),
    ensures
        final(status).wf(),
        final(status).file() == old(status).file(),
        final(status).entries() == config_warning_entries(
            old(status).entries(),
            config_warning_lines(
                in_use_maps(maps_view(maps@), views(active_luns@)),
                parsed_config(config_str@),
                fencing_time_sec,
            ),
        ),
{
    let parsed = parse_multipath_config(config_str);
    let (idx, settings) = settings_in_use(maps, active_luns, &parsed);
    let ghost mon = in_use_maps(maps_view(maps@), views(active_luns@));
    let ghost c = parsed_config(config_str@);
    let mut lines: Vec<String> = Vec::new();
    let mut j: usize = 0;
    assert(mon.take(0) =~= Seq::<MapModel>::empty());
    assert(views(lines@) =~= Seq::<Seq<char>>::empty());
    while j < idx.len()
        invariant
            j <= idx.len(),
            idx.len() == settings.len(),
            parsed@ == c,
            mon == mon_of(maps@, idx@),
            forall|k: int| 0 <= k < idx.len() ==> idx@[k] < maps.len(),
            forall|k: int| 0 <= k < settings.len() ==> (#[trigger] settings@[k])@ == settings_for_map(c, maps@[idx@[k] as int]@),
            config_checkable(maps_view(maps@), views(active_luns@), c),
            mon == in_use_maps(maps_view(maps@), views(active_luns@)),
            fencing_time_sec <= u64::MAX - 60,
            views(lines@) == config_warning_lines(mon.take(j as int), c, fencing_time_sec),
        decreases idx.len() - j,
    {
        let m = &maps[idx[j]];
        assert(mon[j as int] == m@);
        assert(settings@[j as int]@ == settings_for_map(c, mon[j as int]));
        assert(mon.take(j + 1).drop_last() =~= mon.take(j as int));
        assert(mon.take(j + 1).last() == m@);
        let ws = validate_merged_device_config(&settings[j], fencing_time_sec);
        if ws.len() > 0 {
            let (vendor, product) = map_vendor_product(m);
            let l1 = concat("Map ", m.name.as_str());
            let l2 = append(l1, " (vendor: ");
            let l3 = append(l2, vendor);
            let l4 = append(l3, ", product: ");
            let l5 = append(l4, product);
            let l6 = append(l5, "): ");
            let l7 = append(l6, join_strings(&ws, ", ").as_str());
            let ghost before = views(lines@);
            lines.push(l7);
            assert(views(lines@) =~= before.push(l7@));
        }
        j = j + 1;
    }
    assert(mon.take(idx.len() as int) =~= mon);
    if lines.len() > 0 {
        let msg = concat(
            "Multipath configuration recommendation warnings: ",
            join_strings(&lines, "; ").as_str(),
        );
        status.set_issue("config_warnings", StatusLevel::Warning, msg);
    } else {
        status.clear_issue("config_warnings");
    }
}

/// Checks the maps in use as `check_maps_config` does when every queue time of
/// the maps in use fits in 64 bits, and returns true; otherwise changes nothing
/// and returns false.
pub fn check_maps_config_in_range(
    maps: &[MultipathMap],
    active_luns: &[String],
    config_str: &str,
    fencing_time_sec: u64,
    status: &mut StatusTracker,
) -> (done: bool)
    requires
        old(status).wf(),
        fencing_time_sec <= u64::MAX - 60,
    ensures
        final(status).wf(),
        final(status).file() == old(status).file(),
        done == config_checkable(maps_view(maps@), views(active_luns@), parsed_config(config_str@)),
        done ==> final(status).entries() == config_warning_entries(
            old(status).entries(),
            config_warning_lines(
                in_use_maps(maps_view(maps@), views(active_luns@)),
                parsed_config(config_str@),
                fencing_time_sec,
            ),
        ),
        !done ==> final(status).entries() == old(status).entries(),
{
    let parsed = parse_multipath_config(config_str);
    let (idx, settings) = settings_in_use(maps, active_luns, &parsed);
    let ghost mon = in_use_maps(maps_view(maps@), views(active_luns@));
    let ghost c = parsed_config(config_str@);
    let mut j: usize = 0;
    while j < settings.len()
        invariant
            j <= settings.len(),
            idx.len() == settings.len(),
            mon == mon_of(maps@, idx@),
            forall|k: int| 0 <= k < idx.len() ==> idx@[k] < maps.len(),
            forall|k: int| 0 <= k < settings.len() ==> (#[trigger] settings@[k])@ == settings_for_map(c, maps@[idx@[k] as int]@),
            forall|k: int| 0 <= k < j ==> queue_time_fits(#[trigger] settings_for_map(c, mon[k])),
            mon == in_use_maps(maps_view(maps@), views(active_luns@)),
            c == parsed_config(config_str@),
            status.wf(),
            status.file() == old(status).file(),
            status.entries() == old(status).entries(),
        decreases settings.len() - j,
    {
        assert(mon[j as int] == maps@[idx@[j as int] as int]@);
        if !queue_time_fits_exec(&settings[j]) {
            assert(!queue_time_fits(settings_for_map(c, mon[j as int])));
            assert(!config_checkable(maps_view(maps@), views(active_luns@), c));
            return false;
        }
        j = j + 1;
    }
    assert(config_checkable(maps_view(maps@), views(active_luns@), c));
    check_maps_config(maps, active_luns, config_str, fencing_time_sec, status);
    true
}

} // verus!

verus! {

/// The overrides section wins: each setting it gives is the merged setting,
/// whatever the defaults and the device entries say.
pub proof fn lemma_overrides_win(c: ConfigModel, vendor: Seq<char>, product: Seq<char>)
    ensures
        c.overrides.dev_loss_tmo is Some ==> merged_for(c, vendor, product).dev_loss_tmo == c.overrides.dev_loss_tmo,
        c.overrides.no_path_retry is Some ==> merged_for(c, vendor, product).no_path_retry == c.overrides.no_path_retry,
        c.overrides.polling_interval is Some ==> merged_for(c, vendor, product).polling_interval
            == c.overrides.polling_interval,
{
}

proof fn lemma_no_device_applies(m: DeviceModel, devs: Seq<DeviceModel>, applies: Seq<bool>)
    requires
        applies.len() == devs.len(),
        forall|i: int| 0 <= i < applies.len() ==> !applies[i],
    ensures
        overlay_devices(m, devs, applies) == m,
    decreases devs.len(),
{
    if devs.len() > 0 {
        lemma_no_device_applies(m, devs.drop_last(), applies.drop_last());
    }
}

/// A device with no matching device entry gets the defaults laid under the overrides.
pub proof fn lemma_unmatched_device(c: ConfigModel, vendor: Seq<char>, product: Seq<char>)
    requires
        forall|i: int| 0 <= i < c.devices.len() ==> !device_applies(#[trigger] c.devices[i], vendor, product),
    ensures
        merged_for(c, vendor, product) == overlay(c.defaults, c.overrides),
{
    let ap = c.devices.map_values(|d: DeviceModel| device_applies(d, vendor, product));
    lemma_no_device_applies(c.defaults, c.devices, ap);
}

proof fn lemma_last_device_sets_dev_loss(m: DeviceModel, devs: Seq<DeviceModel>, applies: Seq<bool>, j: int)
    requires
        applies.len() == devs.len(),
        0 <= j < devs.len(),
        applies[j],
        devs[j].dev_loss_tmo is Some,
        forall|k: int| j < k < devs.len() ==> !applies[k] || devs[k].dev_loss_tmo is None,
    ensures
        overlay_devices(m, devs, applies).dev_loss_tmo == devs[j].dev_loss_tmo,
    decreases devs.len(),
{
    if j < devs.len() - 1 {
        lemma_last_device_sets_dev_loss(m, devs.drop_last(), applies.drop_last(), j);
    }
}

/// Later device entries win: when the overrides leave `dev_loss_tmo` unset, it is
/// the one of the last device entry that applies and sets it.
pub proof fn lemma_last_matching_device_wins(c: ConfigModel, vendor: Seq<char>, product: Seq<char>, j: int)
    requires
        0 <= j < c.devices.len(),
        device_applies(c.devices[j], vendor, product),
        c.devices[j].dev_loss_tmo is Some,
        forall|k: int|
            j < k < c.devices.len() ==> !device_applies(#[trigger] c.devices[k], vendor, product)
                || c.devices[k].dev_loss_tmo is None,
        c.overrides.dev_loss_tmo is None,
    ensures
        merged_for(c, vendor, product).dev_loss_tmo == c.devices[j].dev_loss_tmo,
{
    let ap = c.devices.map_values(|d: DeviceModel| device_applies(d, vendor, product));
    assert forall|k: int| j < k < c.devices.len() implies !ap[k] || c.devices[k].dev_loss_tmo is None by {
        assert(ap[k] == device_applies(c.devices[k], vendor, product));
    }
    lemma_last_device_sets_dev_loss(c.defaults, c.devices, ap, j);
}

// ---------------------------------------------------------------------------
// Laws of the tokenizer and of the queue-time check.
// ---------------------------------------------------------------------------

/// A character that continues a plain word: no white space, comment sign, brace
/// or quote.
pub open spec fn word_char(c: char) -> bool {
    !is_ws(c) && c != '#' && c != '!' && c != '{' && c != '}' && c != '"'
}

proof fn lemma_lex_word_chars(w: Seq<char>, acc: Seq<char>, rest: Seq<char>)
    requires
        forall|i: int| 0 <= i < w.len() ==> word_char(#[trigger] w[i]),
    ensures
        lex(w + rest, acc, LexMode::Plain) == lex(rest, acc + w, LexMode::Plain),
    decreases w.len(),
{
    if w.len() > 0 {
        let s = w + rest;
        assert(s[0] == w[0]);
        assert(word_char(w[0]));
        assert(s.drop_first() =~= w.drop_first() + rest);
        assert forall|i: int| 0 <= i < w.drop_first().len() implies word_char(#[trigger] w.drop_first()[i]) by {
            assert(w.drop_first()[i] == w[i + 1]);
        }
        lemma_lex_word_chars(w.drop_first(), acc.push(w[0]), rest);
        assert(acc.push(w[0]) + w.drop_first() =~= acc + w);
    } else {
        assert(w + rest =~= rest);
        assert(acc + w =~= acc);
    }
}

/// White space separates words: a plain word followed by any white-space
/// character (`char::is_whitespace`, tabs included) is a word token of its own,
/// whatever follows.
pub proof fn lemma_white_space_ends_word(w: Seq<char>, c: char, rest: Seq<char>)
    requires
        w.len() > 0,
        forall|i: int| 0 <= i < w.len() ==> word_char(#[trigger] w[i]),
        is_ws(c),
    ensures
        lex(w + seq![c] + rest, Seq::empty(), LexMode::Plain) == seq![Tok::Word(w)] + lex(
            rest,
            Seq::empty(),
            LexMode::Plain,
        ),
{
    lemma_lex_word_chars(w, Seq::empty(), seq![c] + rest);
    assert(w + seq![c] + rest =~= w + (seq![c] + rest));
    assert(Seq::<char>::empty() + w =~= w);
    let t = seq![c] + rest;
    assert(t[0] == c);
    assert(t.drop_first() =~= rest);
    assert(flush(w) == seq![Tok::Word(w)]);
}

/// Two plain words with one white-space character between them are two words.
pub proof fn lemma_two_words(w1: Seq<char>, c: char, w2: Seq<char>)
    requires
        w1.len() > 0,
        w2.len() > 0,
        forall|i: int| 0 <= i < w1.len() ==> word_char(#[trigger] w1[i]),
        forall|i: int| 0 <= i < w2.len() ==> word_char(#[trigger] w2[i]),
        is_ws(c),
    ensures
        lex(w1 + seq![c] + w2, Seq::empty(), LexMode::Plain) == seq![Tok::Word(w1), Tok::Word(w2)],
{
    lemma_white_space_ends_word(w1, c, w2);
    lemma_lex_word_chars(w2, Seq::empty(), Seq::empty());
    assert(w2 + Seq::<char>::empty() =~= w2);
    assert(Seq::<char>::empty() + w2 =~= w2);
    assert(lex(Seq::<char>::empty(), w2, LexMode::Plain) == seq![Tok::Word(w2)]);
    assert(seq![Tok::Word(w1)] + seq![Tok::Word(w2)] =~= seq![Tok::Word(w1), Tok::Word(w2)]);
}

/// Space, tab, line feed, carriage return, vertical tab and form feed are white
/// space for the tokenizer.
pub proof fn lemma_ascii_white_space()
    ensures
        is_ws(' '),
        is_ws('\t'),
        is_ws('\n'),
        is_ws('\r'),
        is_ws('\u{b}'),
        is_ws('\u{c}'),
{
}

/// The queue time counts the configured polling interval (5 s when none is set):
/// for a positive number n of retries and polling interval p, the `no_path_retry`
/// check warns exactly when n*p is below the fencing time plus 15 s, and the
/// warning reports the queue time n*p and the polling interval p. With
/// `dev_loss_tmo infinity` that is the only possible warning.
pub proof fn lemma_queue_time_uses_polling_interval(d: DeviceModel, fencing: u64, v: Seq<char>, n: u64, p: u64)
    requires
        d.no_path_retry == Some(v),
        spec_parse_u64(v) == Some(n),
        n > 0,
        d.polling_interval == Some(p) || (d.polling_interval is None && p == 5),
    ensures
        queue_time(d) == Some((n * p) as nat),
        retry_warnings(d, fencing) == if n * p < fencing + 15 {
            seq![
                "no_path_retry is set to '"@ + v + "', yielding a queue time of "@ + decimal((n * p) as nat)
                    + "s (with "@ + decimal(p as nat) + "s polling_interval). This is too low (expected >= "@
                    + decimal((fencing + 15) as nat) + "s to allow fencing)"@,
            ]
        } else {
            Seq::<Seq<char>>::empty()
        },
        d.dev_loss_tmo == Some("infinity"@) ==> validation_warnings(d, fencing) == retry_warnings(d, fencing),
{
    assert(v != "queue"@) by {
        if v == "queue"@ {
            reveal_strlit("queue");
            assert(v[0] == 'q');
            assert(!crate::text::is_digit(v[0]));
        }
    };
    if d.dev_loss_tmo == Some("infinity"@) {
        assert(loss_warnings(d, fencing) =~= Seq::<Seq<char>>::empty());
        assert(validation_warnings(d, fencing) =~= retry_warnings(d, fencing));
    }
}

} // verus!
