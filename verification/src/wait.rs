//! Readiness conditions and wait strategies, with the parser for their
//! `name:arg:arg` command-line spelling.
use crate::error::{ErrorKind, SniffError};
use crate::text::{
    all_digits, all_digits_exec, chars_of, eq_str, find_char, find_first, lemma_deep_view_chars,
    lemma_find_first, lemma_split_nonempty, lower_seq, lower_vec, parse_u64, parse_unsigned,
    push_all, push_str, slice_of, split, split_char, starts_with, string_of, trim, trim_vec,
};
use vstd::prelude::*;

verus! {

// ---------------------------------------------------------------------------
// Decimal text of a floating-point number
// ---------------------------------------------------------------------------

pub open spec fn is_sign(c: char) -> bool {
    c == '+' || c == '-'
}

/// `s` without one leading sign.
pub open spec fn unsigned_part(s: Seq<char>) -> Seq<char> {
    if s.len() > 0 && is_sign(s[0]) {
        s.drop_first()
    } else {
        s
    }
}

/// Digits with at most one decimal point and at least one digit.
pub open spec fn is_mantissa(m: Seq<char>) -> bool {
    match find_first(m, '.') {
        None => m.len() > 0 && all_digits(m),
        Some(i) => all_digits(m.take(i)) && all_digits(m.skip(i + 1)) && m.len() > 1,
    }
}

/// An optional sign, then at least one digit.
pub open spec fn is_exponent(x: Seq<char>) -> bool {
    let d = unsigned_part(x);
    d.len() > 0 && all_digits(d)
}

/// A lowercase mantissa, optionally followed by `e` and an exponent.
pub open spec fn is_decimal_number(u: Seq<char>) -> bool {
    match find_first(u, 'e') {
        None => is_mantissa(u),
        Some(i) => is_mantissa(u.take(i)) && is_exponent(u.skip(i + 1)),
    }
}

/// The strings that `f64::from_str` accepts, as its documentation gives
/// the grammar: an optional sign, then `inf`, `infinity`, `nan` or a
/// decimal number, compared case-insensitively.
pub open spec fn float_text(s: Seq<char>) -> bool {
    let u = lower_seq(unsigned_part(s));
    u == "inf"@ || u == "infinity"@ || u == "nan"@ || is_decimal_number(u)
}

fn strip_sign(s: &Vec<char>) -> (v: Vec<char>)
    ensures
        v@ == unsigned_part(s@),
{
    if s.len() > 0 && (s[0] == '+' || s[0] == '-') {
        assert(s@.subrange(1, s@.len() as int) =~= s@.drop_first());
        slice_of(s, 1, s.len())
    } else {
        assert(s@.subrange(0, s@.len() as int) =~= s@);
        slice_of(s, 0, s.len())
    }
}

fn mantissa_ok(m: &Vec<char>) -> (r: bool)
    ensures
        r == is_mantissa(m@),
{
    match find_char(m, '.') {
        None => m.len() > 0 && all_digits_exec(m),
        Some(i) => {
            proof {
                lemma_find_first(m@, '.');
            }
            assert(m@.subrange(0, i as int) =~= m@.take(i as int));
            assert(m@.subrange(i + 1, m@.len() as int) =~= m@.skip(i + 1));
            all_digits_exec(&slice_of(m, 0, i)) && all_digits_exec(&slice_of(m, i + 1, m.len()))
                && m.len() > 1
        },
    }
}

fn exponent_ok(x: &Vec<char>) -> (r: bool)
    ensures
        r == is_exponent(x@),
{
    let d = strip_sign(x);
    d.len() > 0 && all_digits_exec(&d)
}

/// Whether `s` reads as an `f64`.
fn float_text_ok(s: &Vec<char>) -> (r: bool)
    ensures
        r == float_text(s@),
{
    let u = lower_vec(&strip_sign(s));
    if eq_str(&u, "inf") || eq_str(&u, "infinity") || eq_str(&u, "nan") {
        return true;
    }
    match find_char(&u, 'e') {
        None => mantissa_ok(&u),
        Some(i) => {
            proof {
                lemma_find_first(u@, 'e');
            }
            assert(u@.subrange(0, i as int) =~= u@.take(i as int));
            assert(u@.subrange(i + 1, u@.len() as int) =~= u@.skip(i + 1));
            mantissa_ok(&slice_of(&u, 0, i)) && exponent_ok(&slice_of(&u, i + 1, u.len()))
        },
    }
}

// ---------------------------------------------------------------------------
// Readiness conditions
// ---------------------------------------------------------------------------

/// Granular readiness condition for [`WaitStrategy::ElementReady`].
#[derive(Debug, Clone, PartialEq, Eq)]
pub enum ReadyCondition {
    /// `display != none` and `visibility != hidden`.
    Visible,
    /// `width > 0 && height > 0`.
    HasSize,
    /// `opacity >= threshold`; the threshold is kept as its decimal text,
    /// which always reads as an `f64`.
    Opacity(String),
}

/// A readiness condition with its text as characters.
pub enum ReadyConditionModel {
    Visible,
    HasSize,
    Opacity(Seq<char>),
}

impl View for ReadyCondition {
    type V = ReadyConditionModel;

    open spec fn view(&self) -> ReadyConditionModel {
        match self {
            ReadyCondition::Visible => ReadyConditionModel::Visible,
            ReadyCondition::HasSize => ReadyConditionModel::HasSize,
            ReadyCondition::Opacity(t) => ReadyConditionModel::Opacity(t@),
        }
    }
}

/// The hint appended to an unknown readiness condition.
pub const READY_HINT: &'static str = "` — expected one of: visible, has-size, opacity=<0..1> (element-ready format: element-ready:<selector>:<cond1,cond2>[:<timeout_ms>])";

/// What a readiness condition reads as: `visible`, `has-size` (or
/// `size`), or `opacity=` followed by a floating-point number, after
/// trimming; otherwise the error's text.
pub open spec fn ready_condition_parse(input: Seq<char>) -> Result<ReadyConditionModel, Seq<char>> {
    let t = trim(input);
    if t == "visible"@ {
        Ok(ReadyConditionModel::Visible)
    } else if t == "has-size"@ || t == "size"@ {
        Ok(ReadyConditionModel::HasSize)
    } else if "opacity="@.is_prefix_of(t) {
        let v = t.skip("opacity="@.len() as int);
        if float_text(v) {
            Ok(ReadyConditionModel::Opacity(v))
        } else {
            Err("invalid opacity in `"@ + input + "` (expected opacity=<0..1>)"@)
        }
    } else {
        Err("`"@ + t + READY_HINT@)
    }
}

fn parse_ready_condition(input: &Vec<char>) -> (r: Result<ReadyCondition, SniffError>)
    ensures
        match r {
            Ok(c) => ready_condition_parse(input@) == Ok::<ReadyConditionModel, Seq<char>>(c@),
            Err(e) => e@.0 == ErrorKind::InvalidReadyCondition && ready_condition_parse(input@)
                == Err::<ReadyConditionModel, Seq<char>>(e@.1),
        },
{
    let t = trim_vec(input);
    if eq_str(&t, "visible") {
        Ok(ReadyCondition::Visible)
    } else if eq_str(&t, "has-size") || eq_str(&t, "size") {
        Ok(ReadyCondition::HasSize)
    } else if starts_with(&t, "opacity=") {
        let p = chars_of("opacity=");
        let v = slice_of(&t, p.len(), t.len());
        assert(t@.subrange(p@.len() as int, t@.len() as int) =~= t@.skip(p@.len() as int));
        if float_text_ok(&v) {
            Ok(ReadyCondition::Opacity(string_of(v)))
        } else {
            let mut m: Vec<char> = Vec::new();
            push_str(&mut m, "invalid opacity in `");
            push_all(&mut m, input);
            push_str(&mut m, "` (expected opacity=<0..1>)");
            Err(SniffError::InvalidReadyCondition(string_of(m)))
        }
    } else {
        let mut m: Vec<char> = Vec::new();
        push_str(&mut m, "`");
        push_all(&mut m, &t);
        push_str(&mut m, READY_HINT);
        Err(SniffError::InvalidReadyCondition(string_of(m)))
    }
}

/// The conditions of a comma-separated list: empty pieces are skipped and
/// the first piece that does not read is the error.
pub open spec fn conditions_parse(pieces: Seq<Seq<char>>) -> Result<
    Seq<ReadyConditionModel>,
    (ErrorKind, Seq<char>),
>
    decreases pieces.len(),
{
    if pieces.len() == 0 {
        Ok(Seq::empty())
    } else if pieces[0].len() == 0 {
        conditions_parse(pieces.drop_first())
    } else {
        match ready_condition_parse(pieces[0]) {
            Err(m) => Err((ErrorKind::InvalidReadyCondition, m)),
            Ok(c) => match conditions_parse(pieces.drop_first()) {
                Err(e) => Err(e),
                Ok(rest) => Ok(seq![c] + rest),
            },
        }
    }
}

/// `done` put in front of a successful list.
pub open spec fn prepend<E>(done: Seq<ReadyConditionModel>, r: Result<Seq<ReadyConditionModel>, E>) -> Result<
    Seq<ReadyConditionModel>,
    E,
> {
    match r {
        Ok(rest) => Ok(done + rest),
        Err(e) => Err(e),
    }
}

pub open spec fn conditions_model(cs: Seq<ReadyCondition>) -> Seq<ReadyConditionModel> {
    cs.map_values(|c: ReadyCondition| c@)
}

fn parse_conditions(pieces: &Vec<Vec<char>>) -> (r: Result<Vec<ReadyCondition>, SniffError>)
    ensures
        match r {
            Ok(cs) => conditions_parse(pieces.deep_view()) == Ok::<
                Seq<ReadyConditionModel>,
                (ErrorKind, Seq<char>),
            >(conditions_model(cs@)),
            Err(e) => conditions_parse(pieces.deep_view()) == Err::<
                Seq<ReadyConditionModel>,
                (ErrorKind, Seq<char>),
            >(e@),
        },
{
    let ghost all = pieces.deep_view();
    let mut out: Vec<ReadyCondition> = Vec::new();
    let mut i: usize = 0;
    assert(all.skip(0) =~= all);
    while i < pieces.len()
        invariant
            i <= pieces.len(),
            all == pieces.deep_view(),
            conditions_parse(all) == prepend(conditions_model(out@), conditions_parse(all.skip(i as int))),
        decreases pieces.len() - i,
    {
        let ghost rest = all.skip(i as int);
        assert(rest.drop_first() =~= all.skip(i + 1));
        proof {
            lemma_deep_view_chars(pieces@[i as int]);
        }
        assert(rest[0] == pieces@[i as int]@);
        if pieces[i].len() == 0 {
        } else {
            match parse_ready_condition(&pieces[i]) {
                Err(e) => {
                    return Err(e);
                },
                Ok(c) => {
                    let ghost before = conditions_model(out@);
                    out.push(c);
                    assert(conditions_model(out@) =~= before.push(c@));
                    proof {
                        match conditions_parse(all.skip(i + 1)) {
                            Ok(tail) => {
                                assert(before + (seq![c@] + tail) =~= before.push(c@) + tail);
                            },
                            Err(_) => {},
                        }
                    }
                },
            }
        }
        i = i + 1;
    }
    assert(all.skip(pieces.len() as int) =~= Seq::<Seq<char>>::empty());
    assert(conditions_model(out@) + Seq::<ReadyConditionModel>::empty() =~= conditions_model(out@));
    Ok(out)
}

// ---------------------------------------------------------------------------
// Wait strategies
// ---------------------------------------------------------------------------

/// A single wait/readiness strategy.
#[derive(Debug, Clone, PartialEq, Eq)]
pub enum WaitStrategy {
    /// Wait until `selector` exists in the DOM.
    Selector { selector: String, timeout_ms: u64 },
    /// Wait until the network is idle for `idle_ms`, up to `timeout_ms`.
    NetworkIdle { idle_ms: u64, timeout_ms: u64 },
    /// Poll `selector` until its computed style satisfies every
    /// condition, up to `timeout_ms`.
    ElementReady { selector: String, conditions: Vec<ReadyCondition>, timeout_ms: u64 },
    /// Wait until `document.fonts.ready` resolves.
    FontsLoaded { timeout_ms: u64 },
    /// Wait until `window[flag] === true`.
    AppFlag { flag: String, timeout_ms: u64 },
    /// Fixed sleep.
    Delay { ms: u64 },
}

/// A wait strategy with its texts as characters.
pub enum WaitStrategyModel {
    Selector { selector: Seq<char>, timeout_ms: u64 },
    NetworkIdle { idle_ms: u64, timeout_ms: u64 },
    ElementReady { selector: Seq<char>, conditions: Seq<ReadyConditionModel>, timeout_ms: u64 },
    FontsLoaded { timeout_ms: u64 },
    AppFlag { flag: Seq<char>, timeout_ms: u64 },
    Delay { ms: u64 },
}

impl View for WaitStrategy {
    type V = WaitStrategyModel;

    open spec fn view(&self) -> WaitStrategyModel {
        match self {
            WaitStrategy::Selector { selector, timeout_ms } => WaitStrategyModel::Selector {
                selector: selector@,
                timeout_ms: *timeout_ms,
            },
            WaitStrategy::NetworkIdle { idle_ms, timeout_ms } => WaitStrategyModel::NetworkIdle {
                idle_ms: *idle_ms,
                timeout_ms: *timeout_ms,
            },
            WaitStrategy::ElementReady { selector, conditions, timeout_ms } =>
                WaitStrategyModel::ElementReady {
                selector: selector@,
                conditions: conditions_model(conditions@),
                timeout_ms: *timeout_ms,
            },
            WaitStrategy::FontsLoaded { timeout_ms } => WaitStrategyModel::FontsLoaded {
                timeout_ms: *timeout_ms,
            },
            WaitStrategy::AppFlag { flag, timeout_ms } => WaitStrategyModel::AppFlag {
                flag: flag@,
                timeout_ms: *timeout_ms,
            },
            WaitStrategy::Delay { ms } => WaitStrategyModel::Delay { ms: *ms },
        }
    }
}

pub open spec fn pipeline_model(ws: Seq<WaitStrategy>) -> Seq<WaitStrategyModel> {
    ws.map_values(|w: WaitStrategy| w@)
}

/// The default pipeline for `selector`: the selector exists (10 s), the
/// network is idle for 400 ms (30 s), and the element is visible and has
/// a size (10 s).
pub open spec fn default_pipeline_model(selector: Seq<char>) -> Seq<WaitStrategyModel> {
    seq![
        WaitStrategyModel::Selector { selector, timeout_ms: 10_000 },
        WaitStrategyModel::NetworkIdle { idle_ms: 400, timeout_ms: 30_000 },
        WaitStrategyModel::ElementReady {
            selector,
            conditions: seq![ReadyConditionModel::Visible, ReadyConditionModel::HasSize],
            timeout_ms: 10_000,
        },
    ]
}

impl WaitStrategy {
    /// Sensible default pipeline for a selector.
    pub fn default_pipeline(selector: &str) -> (r: Vec<WaitStrategy>)
        ensures
            pipeline_model(r@) == default_pipeline_model(selector@),
    {
        let mut conditions: Vec<ReadyCondition> = Vec::new();
        conditions.push(ReadyCondition::Visible);
        conditions.push(ReadyCondition::HasSize);
        assert(conditions_model(conditions@) =~= seq![
            ReadyConditionModel::Visible,
            ReadyConditionModel::HasSize,
        ]);
        let mut r: Vec<WaitStrategy> = Vec::new();
        r.push(WaitStrategy::Selector { selector: String::from_str(selector), timeout_ms: 10_000 });
        r.push(WaitStrategy::NetworkIdle { idle_ms: 400, timeout_ms: 30_000 });
        r.push(
            WaitStrategy::ElementReady {
                selector: String::from_str(selector),
                conditions,
                timeout_ms: 10_000,
            },
        );
        assert(pipeline_model(r@) =~= default_pipeline_model(selector@));
        r
    }
}

/// The accepted spellings, appended to every wait-strategy error.
pub const WAIT_FORMAT: &'static str = " — wait format: delay:<ms> | network-idle:<idle_ms>[:<timeout_ms>] | fonts-loaded[:<timeout_ms>] | selector:<sel>[:<timeout_ms>] | element-ready:<sel>:<visible,has-size[,opacity=N]>[:<timeout_ms>] | app-flag:<flag>[:<timeout_ms>]";

/// A wait-strategy error with message `e`.
pub open spec fn wait_error(e: Seq<char>) -> (ErrorKind, Seq<char>) {
    (ErrorKind::InvalidWaitStrategy, e + WAIT_FORMAT@)
}

pub open spec fn missing_msg(what: Seq<char>, name: Seq<char>) -> Seq<char> {
    "missing "@ + what + " for `"@ + name + "` strategy"@
}

pub open spec fn invalid_ms_msg(what: Seq<char>, name: Seq<char>) -> Seq<char> {
    "invalid "@ + what + " (expected milliseconds) for `"@ + name + "`"@
}

/// The milliseconds in argument `k`, which must be there.
pub open spec fn ms_arg(args: Seq<Seq<char>>, k: int, what: Seq<char>, name: Seq<char>) -> Result<
    u64,
    (ErrorKind, Seq<char>),
> {
    if k >= args.len() {
        Err(wait_error(missing_msg(what, name)))
    } else {
        match parse_unsigned(args[k], u64::MAX as nat) {
            Some(v) => Ok(v as u64),
            None => Err(wait_error(invalid_ms_msg(what, name))),
        }
    }
}

/// The milliseconds in argument `k`, or `default` when there is none.
pub open spec fn opt_ms_arg(
    args: Seq<Seq<char>>,
    k: int,
    what: Seq<char>,
    name: Seq<char>,
    default: u64,
) -> Result<u64, (ErrorKind, Seq<char>)> {
    if k >= args.len() {
        Ok(default)
    } else {
        ms_arg(args, k, what, name)
    }
}

/// The strategy name: the trimmed text before the first `:`.
pub open spec fn wait_name(spec: Seq<char>) -> Seq<char> {
    trim(split(spec, ':')[0])
}

/// The trimmed arguments after the name.
pub open spec fn wait_args(spec: Seq<char>) -> Seq<Seq<char>> {
    split(spec, ':').drop_first().map_values(|p: Seq<char>| trim(p))
}

/// What `parse_wait_strategy` gives for `spec`. Arguments are read in
/// order; a missing optional timeout takes the strategy's default
/// (30 s for network-idle, selector and element-ready, 15 s for
/// fonts-loaded and app-flag) and arguments beyond those are ignored.
pub open spec fn wait_parse(spec: Seq<char>) -> Result<WaitStrategyModel, (ErrorKind, Seq<char>)> {
    let name = wait_name(spec);
    let args = wait_args(spec);
    if name == "delay"@ {
        match ms_arg(args, 0, "delay"@, name) {
            Ok(ms) => Ok(WaitStrategyModel::Delay { ms }),
            Err(e) => Err(e),
        }
    } else if name == "network-idle"@ {
        match ms_arg(args, 0, "idle_ms"@, name) {
            Err(e) => Err(e),
            Ok(idle_ms) => match opt_ms_arg(args, 1, "timeout_ms"@, name, 30_000) {
                Err(e) => Err(e),
                Ok(timeout_ms) => Ok(WaitStrategyModel::NetworkIdle { idle_ms, timeout_ms }),
            },
        }
    } else if name == "fonts-loaded"@ {
        match opt_ms_arg(args, 0, "timeout_ms"@, name, 15_000) {
            Err(e) => Err(e),
            Ok(timeout_ms) => Ok(WaitStrategyModel::FontsLoaded { timeout_ms }),
        }
    } else if name == "selector"@ {
        if args.len() == 0 {
            Err(wait_error(missing_msg("selector"@, name)))
        } else {
            match opt_ms_arg(args, 1, "timeout_ms"@, name, 30_000) {
                Err(e) => Err(e),
                Ok(timeout_ms) => Ok(WaitStrategyModel::Selector { selector: args[0], timeout_ms }),
            }
        }
    } else if name == "element-ready"@ {
        if args.len() == 0 {
            Err(wait_error(missing_msg("selector"@, name)))
        } else if args.len() == 1 {
            Err(wait_error(missing_msg("conditions"@, name)))
        } else {
            match conditions_parse(split(args[1], ',')) {
                Err(e) => Err(e),
                Ok(conditions) => if conditions.len() == 0 {
                    Err(wait_error("element-ready requires at least one condition"@))
                } else {
                    match opt_ms_arg(args, 2, "timeout_ms"@, name, 30_000) {
                        Err(e) => Err(e),
                        Ok(timeout_ms) => Ok(
                            WaitStrategyModel::ElementReady { selector: args[0], conditions, timeout_ms },
                        ),
                    }
                },
            }
        }
    } else if name == "app-flag"@ {
        if args.len() == 0 {
            Err(wait_error(missing_msg("flag"@, name)))
        } else {
            match opt_ms_arg(args, 1, "timeout_ms"@, name, 15_000) {
                Err(e) => Err(e),
                Ok(timeout_ms) => Ok(WaitStrategyModel::AppFlag { flag: args[0], timeout_ms }),
            }
        }
    } else {
        Err(wait_error("unknown strategy `"@ + name + "`"@))
    }
}

fn wait_error_exec(mut m: Vec<char>) -> (e: SniffError)
    ensures
        e@ == wait_error(m@),
{
    push_str(&mut m, WAIT_FORMAT);
    SniffError::InvalidWaitStrategy(string_of(m))
}

fn missing_error(what: &str, name: &Vec<char>) -> (e: SniffError)
    ensures
        e@ == wait_error(missing_msg(what@, name@)),
{
    let mut m: Vec<char> = Vec::new();
    push_str(&mut m, "missing ");
    push_str(&mut m, what);
    push_str(&mut m, " for `");
    push_all(&mut m, name);
    push_str(&mut m, "` strategy");
    assert(m@ =~= missing_msg(what@, name@));
    wait_error_exec(m)
}

fn ms_arg_exec(args: &Vec<Vec<char>>, k: usize, what: &str, name: &Vec<char>) -> (r: Result<
    u64,
    SniffError,
>)
    ensures
        match r {
            Ok(v) => ms_arg(args.deep_view(), k as int, what@, name@) == Ok::<
                u64,
                (ErrorKind, Seq<char>),
            >(v),
            Err(e) => ms_arg(args.deep_view(), k as int, what@, name@) == Err::<
                u64,
                (ErrorKind, Seq<char>),
            >(e@),
        },
{
    if k >= args.len() {
        return Err(missing_error(what, name));
    }
    proof {
        lemma_deep_view_chars(args@[k as int]);
    }
    match parse_u64(&args[k]) {
        Some(v) => Ok(v),
        None => {
            let mut m: Vec<char> = Vec::new();
            push_str(&mut m, "invalid ");
            push_str(&mut m, what);
            push_str(&mut m, " (expected milliseconds) for `");
            push_all(&mut m, name);
            push_str(&mut m, "`");
            assert(m@ =~= invalid_ms_msg(what@, name@));
            Err(wait_error_exec(m))
        },
    }
}

fn opt_ms_arg_exec(
    args: &Vec<Vec<char>>,
    k: usize,
    what: &str,
    name: &Vec<char>,
    default: u64,
) -> (r: Result<u64, SniffError>)
    ensures
        match r {
            Ok(v) => opt_ms_arg(args.deep_view(), k as int, what@, name@, default) == Ok::<
                u64,
                (ErrorKind, Seq<char>),
            >(v),
            Err(e) => opt_ms_arg(args.deep_view(), k as int, what@, name@, default) == Err::<
                u64,
                (ErrorKind, Seq<char>),
            >(e@),
        },
{
    if k >= args.len() {
        Ok(default)
    } else {
        ms_arg_exec(args, k, what, name)
    }
}

/// Parse a `name:arg:arg` wait strategy spec.
pub fn parse_wait_strategy(spec: &str) -> (r: Result<WaitStrategy, SniffError>)
    ensures
        match r {
            Ok(w) => wait_parse(spec@) == Ok::<WaitStrategyModel, (ErrorKind, Seq<char>)>(w@),
            Err(e) => wait_parse(spec@) == Err::<WaitStrategyModel, (ErrorKind, Seq<char>)>(e@),
        },
{
    let s = chars_of(spec);
    let parts = split_char(&s, ':');
    proof {
        lemma_split_nonempty(s@, ':');
        lemma_deep_view_chars(parts@[0]);
    }
    let name = trim_vec(&parts[0]);
    let ghost pv = parts.deep_view();
    let mut args: Vec<Vec<char>> = Vec::new();
    let mut i: usize = 1;
    while i < parts.len()
        invariant
            1 <= i <= parts.len(),
            pv == parts.deep_view(),
            args.deep_view() == pv.drop_first().take(i - 1).map_values(|p: Seq<char>| trim(p)),
        decreases parts.len() - i,
    {
        proof {
            lemma_deep_view_chars(parts@[i as int]);
        }
        let a = trim_vec(&parts[i]);
        let ghost before = args.deep_view();
        proof {
            lemma_deep_view_chars(a);
        }
        args.push(a);
        assert(args.deep_view() =~= before.push(a@));
        assert(pv.drop_first().take(i as int).map_values(|p: Seq<char>| trim(p))
            =~= pv.drop_first().take(i - 1).map_values(|p: Seq<char>| trim(p)).push(trim(pv[i as int])));
        i = i + 1;
    }
    assert(pv.drop_first().take(parts.len() - 1) =~= pv.drop_first());
    let ghost av = args.deep_view();
    assert(av == wait_args(spec@));
    assert(name@ == wait_name(spec@));
    if eq_str(&name, "delay") {
        let ms = ms_arg_exec(&args, 0, "delay", &name)?;
        Ok(WaitStrategy::Delay { ms })
    } else if eq_str(&name, "network-idle") {
        let idle_ms = ms_arg_exec(&args, 0, "idle_ms", &name)?;
        let timeout_ms = opt_ms_arg_exec(&args, 1, "timeout_ms", &name, 30_000)?;
        Ok(WaitStrategy::NetworkIdle { idle_ms, timeout_ms })
    } else if eq_str(&name, "fonts-loaded") {
        let timeout_ms = opt_ms_arg_exec(&args, 0, "timeout_ms", &name, 15_000)?;
        Ok(WaitStrategy::FontsLoaded { timeout_ms })
    } else if eq_str(&name, "selector") {
        if args.len() == 0 {
            return Err(missing_error("selector", &name));
        }
        let timeout_ms = opt_ms_arg_exec(&args, 1, "timeout_ms", &name, 30_000)?;
        proof {
            lemma_deep_view_chars(args@[0]);
        }
        let selector = string_of(slice_of(&args[0], 0, args[0].len()));
        assert(args@[0]@.subrange(0, args@[0]@.len() as int) =~= args@[0]@);
        Ok(WaitStrategy::Selector { selector, timeout_ms })
    } else if eq_str(&name, "element-ready") {
        if args.len() == 0 {
            return Err(missing_error("selector", &name));
        }
        if args.len() == 1 {
            return Err(missing_error("conditions", &name));
        }
        proof {
            lemma_deep_view_chars(args@[0]);
            lemma_deep_view_chars(args@[1]);
        }
        let pieces = split_char(&args[1], ',');
        let conditions = parse_conditions(&pieces)?;
        if conditions.len() == 0 {
            let mut m: Vec<char> = Vec::new();
            push_str(&mut m, "element-ready requires at least one condition");
            return Err(wait_error_exec(m));
        }
        let timeout_ms = opt_ms_arg_exec(&args, 2, "timeout_ms", &name, 30_000)?;
        let selector = string_of(slice_of(&args[0], 0, args[0].len()));
        assert(args@[0]@.subrange(0, args@[0]@.len() as int) =~= args@[0]@);
        Ok(WaitStrategy::ElementReady { selector, conditions, timeout_ms })
    } else if eq_str(&name, "app-flag") {
        if args.len() == 0 {
            return Err(missing_error("flag", &name));
        }
        let timeout_ms = opt_ms_arg_exec(&args, 1, "timeout_ms", &name, 15_000)?;
        proof {
            lemma_deep_view_chars(args@[0]);
        }
        let flag = string_of(slice_of(&args[0], 0, args[0].len()));
        assert(args@[0]@.subrange(0, args@[0]@.len() as int) =~= args@[0]@);
        Ok(WaitStrategy::AppFlag { flag, timeout_ms })
    } else {
        let mut m: Vec<char> = Vec::new();
        push_str(&mut m, "unknown strategy `");
        push_all(&mut m, &name);
        push_str(&mut m, "`");
        Err(wait_error_exec(m))
    }
}

} // verus!
