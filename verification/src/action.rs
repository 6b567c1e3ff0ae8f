//! Page interactions performed before extraction, with the parser for
//! their `name:arg:arg` command-line spelling.
use crate::error::{ErrorKind, SniffError};
use crate::snapshot::{decimal, digit_char};
use crate::text::{
    all_digits, all_digits_exec, chars_of, digit_value, digits_value, eq_str, find_char, find_first, is_digit,
    is_ws, lemma_deep_view_chars, lemma_find_first, lemma_find_first_char, lemma_split_nonempty, parse_u64,
    parse_unsigned, push_all, push_str, slice_of, split, split_char, string_of, trim, trim_vec,
};
use vstd::prelude::*;

verus! {

/// A single user interaction performed on the page before extraction,
/// used to reveal elements that only exist after an action (modals,
/// dropdowns, hover menus, type-ahead suggestions).
#[derive(Debug, Clone, PartialEq, Eq)]
pub enum Action {
    /// Wait for `selector`, scroll it into view and click its center.
    Click { selector: String, timeout_ms: u64, settle_ms: u64 },
    /// Wait for `selector`, scroll it into view and move the pointer to
    /// its center.
    Hover { selector: String, timeout_ms: u64, settle_ms: u64 },
    /// Wait for `selector`, focus it and insert `text`.
    Type { selector: String, text: String, timeout_ms: u64, settle_ms: u64 },
    /// Wait for `selector` to exist, then attach local `files` to an
    /// `<input type=file>`.
    Upload { selector: String, files: Vec<String>, timeout_ms: u64, settle_ms: u64 },
}

/// An action with its texts as characters.
pub enum ActionModel {
    Click { selector: Seq<char>, timeout_ms: u64, settle_ms: u64 },
    Hover { selector: Seq<char>, timeout_ms: u64, settle_ms: u64 },
    Type { selector: Seq<char>, text: Seq<char>, timeout_ms: u64, settle_ms: u64 },
    Upload { selector: Seq<char>, files: Seq<Seq<char>>, timeout_ms: u64, settle_ms: u64 },
}

pub open spec fn strings_model(v: Seq<String>) -> Seq<Seq<char>> {
    v.map_values(|s: String| s@)
}

impl View for Action {
    type V = ActionModel;

    open spec fn view(&self) -> ActionModel {
        match self {
            Action::Click { selector, timeout_ms, settle_ms } => ActionModel::Click {
                selector: selector@,
                timeout_ms: *timeout_ms,
                settle_ms: *settle_ms,
            },
            Action::Hover { selector, timeout_ms, settle_ms } => ActionModel::Hover {
                selector: selector@,
                timeout_ms: *timeout_ms,
                settle_ms: *settle_ms,
            },
            Action::Type { selector, text, timeout_ms, settle_ms } => ActionModel::Type {
                selector: selector@,
                text: text@,
                timeout_ms: *timeout_ms,
                settle_ms: *settle_ms,
            },
            Action::Upload { selector, files, timeout_ms, settle_ms } => ActionModel::Upload {
                selector: selector@,
                files: strings_model(files@),
                timeout_ms: *timeout_ms,
                settle_ms: *settle_ms,
            },
        }
    }
}

impl ActionModel {
    pub open spec fn kind(self) -> Seq<char> {
        match self {
            ActionModel::Click { .. } => "click"@,
            ActionModel::Hover { .. } => "hover"@,
            ActionModel::Type { .. } => "type"@,
            ActionModel::Upload { .. } => "upload"@,
        }
    }

    pub open spec fn selector(self) -> Seq<char> {
        match self {
            ActionModel::Click { selector, .. } => selector,
            ActionModel::Hover { selector, .. } => selector,
            ActionModel::Type { selector, .. } => selector,
            ActionModel::Upload { selector, .. } => selector,
        }
    }

    pub open spec fn timeout_ms(self) -> u64 {
        match self {
            ActionModel::Click { timeout_ms, .. } => timeout_ms,
            ActionModel::Hover { timeout_ms, .. } => timeout_ms,
            ActionModel::Type { timeout_ms, .. } => timeout_ms,
            ActionModel::Upload { timeout_ms, .. } => timeout_ms,
        }
    }

    pub open spec fn settle_ms(self) -> u64 {
        match self {
            ActionModel::Click { settle_ms, .. } => settle_ms,
            ActionModel::Hover { settle_ms, .. } => settle_ms,
            ActionModel::Type { settle_ms, .. } => settle_ms,
            ActionModel::Upload { settle_ms, .. } => settle_ms,
        }
    }
}

impl Action {
    /// Default timeout for an action target to become ready (ms).
    pub const DEFAULT_TIMEOUT_MS: u64 = 10_000;

    /// Default settle time after an action (ms).
    pub const DEFAULT_SETTLE_MS: u64 = 150;

    /// The kind of this action (`click`, `hover`, `type` or `upload`).
    pub fn kind(&self) -> (r: &'static str)
        ensures
            r@ == self@.kind(),
    {
        match self {
            Action::Click { .. } => "click",
            Action::Hover { .. } => "hover",
            Action::Type { .. } => "type",
            Action::Upload { .. } => "upload",
        }
    }

    /// The target selector of this action.
    pub fn selector(&self) -> (r: &str)
        ensures
            r@ == self@.selector(),
    {
        match self {
            Action::Click { selector, .. } => selector.as_str(),
            Action::Hover { selector, .. } => selector.as_str(),
            Action::Type { selector, .. } => selector.as_str(),
            Action::Upload { selector, .. } => selector.as_str(),
        }
    }

    /// Milliseconds to wait for the target to become ready.
    pub fn timeout_ms(&self) -> (r: u64)
        ensures
            r == self@.timeout_ms(),
    {
        match self {
            Action::Click { timeout_ms, .. } => *timeout_ms,
            Action::Hover { timeout_ms, .. } => *timeout_ms,
            Action::Type { timeout_ms, .. } => *timeout_ms,
            Action::Upload { timeout_ms, .. } => *timeout_ms,
        }
    }

    /// Milliseconds to settle after the interaction.
    pub fn settle_ms(&self) -> (r: u64)
        ensures
            r == self@.settle_ms(),
    {
        match self {
            Action::Click { settle_ms, .. } => *settle_ms,
            Action::Hover { settle_ms, .. } => *settle_ms,
            Action::Type { settle_ms, .. } => *settle_ms,
            Action::Upload { settle_ms, .. } => *settle_ms,
        }
    }
}

// ---------------------------------------------------------------------------
// Parsing
// ---------------------------------------------------------------------------

/// The accepted spellings, appended to every action error.
pub const ACTION_FORMAT: &'static str = " — action format: click:<selector>[:<timeout_ms>[:<settle_ms>]] | hover:<selector>[:<timeout_ms>[:<settle_ms>]] | type:<selector>:<text> | upload:<selector>:<file1,file2>";

/// An action error with message `e`.
pub open spec fn action_error(e: Seq<char>) -> (ErrorKind, Seq<char>) {
    (ErrorKind::InvalidAction, e + ACTION_FORMAT@)
}

/// The text before the first `:` of `s` (all of it when there is none).
pub open spec fn head(s: Seq<char>) -> Seq<char> {
    match find_first(s, ':') {
        None => s,
        Some(i) => s.take(i),
    }
}

/// The text after the first `:` of `s` (empty when there is none).
pub open spec fn tail(s: Seq<char>) -> Seq<char> {
    match find_first(s, ':') {
        None => Seq::empty(),
        Some(i) => s.skip(i + 1),
    }
}

/// The pieces joined with `c` between them.
pub open spec fn join(pieces: Seq<Seq<char>>, c: char) -> Seq<char>
    decreases pieces.len(),
{
    if pieces.len() == 0 {
        Seq::empty()
    } else if pieces.len() == 1 {
        pieces[0]
    } else {
        join(pieces.drop_last(), c).push(c) + pieces.last()
    }
}

/// A token that, trimmed, is a non-empty run of ASCII digits.
pub open spec fn is_numeric_token(t: Seq<char>) -> bool {
    trim(t).len() > 0 && all_digits(trim(t))
}

/// How many tokens at the end of `toks` are numeric.
pub open spec fn trailing_numeric(toks: Seq<Seq<char>>) -> nat
    decreases toks.len(),
{
    if toks.len() > 0 && is_numeric_token(toks.last()) {
        1 + trailing_numeric(toks.drop_last())
    } else {
        0
    }
}

/// The non-empty trimmed pieces, in order.
pub open spec fn nonempty_trimmed(pieces: Seq<Seq<char>>) -> Seq<Seq<char>>
    decreases pieces.len(),
{
    if pieces.len() == 0 {
        Seq::empty()
    } else {
        let rest = nonempty_trimmed(pieces.drop_last());
        let t = trim(pieces.last());
        if t.len() > 0 {
            rest.push(t)
        } else {
            rest
        }
    }
}

pub open spec fn invalid_ms_msg(what: Seq<char>, name: Seq<char>) -> Seq<char> {
    "invalid "@ + what + " (expected milliseconds) for `"@ + name + "` action"@
}

/// A `click`/`hover` body: the selector may contain `:`; only the
/// trailing numeric tokens (at most two) are the timeout and the settle
/// time, in that order.
pub open spec fn pointer_action_parse(name: Seq<char>, body: Seq<char>, click: bool) -> Result<
    ActionModel,
    (ErrorKind, Seq<char>),
> {
    let toks = split(body, ':');
    let n = toks.len();
    let k = trailing_numeric(toks);
    if k > 2 {
        Err(
            action_error(
                "too many numeric options in `"@ + name
                    + "` action (a selector ending in `:digits` is ambiguous)"@,
            ),
        )
    } else {
        let selector = trim(join(toks.take(n - k), ':'));
        let timeout = if k == 0 {
            Some(Action::DEFAULT_TIMEOUT_MS as nat)
        } else {
            parse_unsigned(trim(toks[n - k]), u64::MAX as nat)
        };
        let settle = if k == 2 {
            parse_unsigned(trim(toks[n - 1]), u64::MAX as nat)
        } else {
            Some(Action::DEFAULT_SETTLE_MS as nat)
        };
        if selector.len() == 0 {
            Err(action_error("missing selector"@))
        } else if timeout is None {
            Err(action_error(invalid_ms_msg("timeout_ms"@, name)))
        } else if settle is None {
            Err(action_error(invalid_ms_msg("settle_ms"@, name)))
        } else if click {
            Ok(
                ActionModel::Click {
                    selector,
                    timeout_ms: timeout->0 as u64,
                    settle_ms: settle->0 as u64,
                },
            )
        } else {
            Ok(
                ActionModel::Hover {
                    selector,
                    timeout_ms: timeout->0 as u64,
                    settle_ms: settle->0 as u64,
                },
            )
        }
    }
}

/// A `type`/`upload` body: the selector is the text before the first
/// `:`, the rest (colons included) is the text or the comma-separated
/// files.
pub open spec fn input_action_parse(body: Seq<char>, typing: bool) -> Result<
    ActionModel,
    (ErrorKind, Seq<char>),
> {
    let selector = trim(head(body));
    let rest = tail(body);
    if selector.len() == 0 {
        Err(action_error("missing selector"@))
    } else if typing {
        if trim(rest).len() == 0 {
            Err(action_error("missing text for `type` action"@))
        } else {
            Ok(
                ActionModel::Type {
                    selector,
                    text: trim(rest),
                    timeout_ms: Action::DEFAULT_TIMEOUT_MS,
                    settle_ms: Action::DEFAULT_SETTLE_MS,
                },
            )
        }
    } else if trim(rest).len() == 0 {
        Err(action_error("missing files for `upload` action"@))
    } else {
        Ok(
            ActionModel::Upload {
                selector,
                files: nonempty_trimmed(split(rest, ',')),
                timeout_ms: Action::DEFAULT_TIMEOUT_MS,
                settle_ms: Action::DEFAULT_SETTLE_MS,
            },
        )
    }
}

/// What `parse_action` gives for `spec`: the name is the trimmed text
/// before the first `:`, the body what follows it.
pub open spec fn action_parse(spec: Seq<char>) -> Result<ActionModel, (ErrorKind, Seq<char>)> {
    let name = trim(head(spec));
    let body = tail(spec);
    if name == "click"@ || name == "hover"@ {
        pointer_action_parse(name, body, name == "click"@)
    } else if name == "type"@ || name == "upload"@ {
        input_action_parse(body, name == "type"@)
    } else {
        Err(action_error("unknown action `"@ + name + "`"@))
    }
}

fn action_error_exec(mut m: Vec<char>) -> (e: SniffError)
    ensures
        e@ == action_error(m@),
{
    push_str(&mut m, ACTION_FORMAT);
    SniffError::InvalidAction(string_of(m))
}

fn literal_error(m: &str) -> (e: SniffError)
    ensures
        e@ == action_error(m@),
{
    action_error_exec(chars_of(m))
}

/// `head` and `tail` of `s`.
fn head_tail(s: &Vec<char>) -> (r: (Vec<char>, Vec<char>))
    ensures
        r.0@ == head(s@),
        r.1@ == tail(s@),
{
    match find_char(s, ':') {
        None => {
            assert(s@.subrange(0, s@.len() as int) =~= s@);
            (slice_of(s, 0, s.len()), Vec::new())
        },
        Some(i) => {
            proof {
                lemma_find_first(s@, ':');
            }
            assert(i < s.len());
            assert(s@.subrange(0, i as int) =~= s@.take(i as int));
            assert(s@.subrange(i + 1, s@.len() as int) =~= s@.skip(i + 1));
            let a = slice_of(s, 0, i);
            let b = slice_of(s, i + 1, s.len());
            (a, b)
        },
    }
}

/// The first `m` pieces joined with `c`.
fn join_prefix(pieces: &Vec<Vec<char>>, m: usize, c: char) -> (r: Vec<char>)
    requires
        m <= pieces.len(),
    ensures
        r@ == join(pieces.deep_view().take(m as int), c),
{
    let ghost pv = pieces.deep_view();
    let mut out: Vec<char> = Vec::new();
    let mut i: usize = 0;
    assert(pv.take(0) =~= Seq::<Seq<char>>::empty());
    while i < m
        invariant
            i <= m <= pieces.len(),
            pv == pieces.deep_view(),
            out@ == join(pv.take(i as int), c),
        decreases m - i,
    {
        proof {
            lemma_deep_view_chars(pieces@[i as int]);
        }
        let ghost before = out@;
        assert(pv.take(i + 1).drop_last() =~= pv.take(i as int));
        assert(pv.take(i + 1).last() == pieces@[i as int]@);
        if i == 0 {
            assert(pv.take(1) =~= seq![pv[0]]);
            push_all(&mut out, &pieces[i]);
        } else {
            out.push(c);
            push_all(&mut out, &pieces[i]);
            assert(out@ =~= before.push(c) + pieces@[i as int]@);
        }
        i = i + 1;
    }
    out
}

fn numeric_token(t: &Vec<char>) -> (r: bool)
    ensures
        r == is_numeric_token(t@),
{
    let u = trim_vec(t);
    u.len() > 0 && all_digits_exec(&u)
}

/// How many of the last tokens are numeric.
fn count_trailing_numeric(toks: &Vec<Vec<char>>) -> (k: usize)
    ensures
        k as nat == trailing_numeric(toks.deep_view()),
        k <= toks.len(),
{
    let ghost tv = toks.deep_view();
    let mut j: usize = toks.len();
    assert(tv.take(toks.len() as int) =~= tv);
    while j > 0 && numeric_token(&toks[j - 1])
        invariant
            j <= toks.len(),
            tv == toks.deep_view(),
            trailing_numeric(tv) == (toks.len() - j) + trailing_numeric(tv.take(j as int)),
        decreases j,
    {
        proof {
            lemma_deep_view_chars(toks@[j - 1]);
        }
        assert(tv.take(j as int).last() == toks@[j - 1]@);
        assert(tv.take(j as int).drop_last() =~= tv.take(j - 1));
        j = j - 1;
    }
    if j > 0 {
        proof {
            lemma_deep_view_chars(toks@[j - 1]);
        }
        assert(tv.take(j as int).last() == toks@[j - 1]@);
    }
    toks.len() - j
}

/// The milliseconds of a trailing token, trimmed.
fn token_ms(tok: &Vec<char>) -> (r: Option<u64>)
    ensures
        match r {
            Some(v) => parse_unsigned(trim(tok@), u64::MAX as nat) == Some(v as nat),
            None => parse_unsigned(trim(tok@), u64::MAX as nat) is None,
        },
{
    parse_u64(&trim_vec(tok))
}

fn invalid_ms_error(what: &str, name: &Vec<char>) -> (e: SniffError)
    ensures
        e@ == action_error(invalid_ms_msg(what@, name@)),
{
    let mut m: Vec<char> = Vec::new();
    push_str(&mut m, "invalid ");
    push_str(&mut m, what);
    push_str(&mut m, " (expected milliseconds) for `");
    push_all(&mut m, name);
    push_str(&mut m, "` action");
    assert(m@ =~= invalid_ms_msg(what@, name@));
    action_error_exec(m)
}

fn parse_pointer_action(name: &Vec<char>, body: &Vec<char>, click: bool) -> (r: Result<
    Action,
    SniffError,
>)
    ensures
        match r {
            Ok(a) => pointer_action_parse(name@, body@, click) == Ok::<
                ActionModel,
                (ErrorKind, Seq<char>),
            >(a@),
            Err(e) => pointer_action_parse(name@, body@, click) == Err::<
                ActionModel,
                (ErrorKind, Seq<char>),
            >(e@),
        },
{
    let toks = split_char(body, ':');
    let ghost tv = toks.deep_view();
    let n = toks.len();
    let k = count_trailing_numeric(&toks);
    if k > 2 {
        let mut m: Vec<char> = Vec::new();
        push_str(&mut m, "too many numeric options in `");
        push_all(&mut m, name);
        push_str(&mut m, "` action (a selector ending in `:digits` is ambiguous)");
        assert(m@ =~= "too many numeric options in `"@ + name@
            + "` action (a selector ending in `:digits` is ambiguous)"@);
        return Err(action_error_exec(m));
    }
    let selector = trim_vec(&join_prefix(&toks, n - k, ':'));
    if selector.len() == 0 {
        return Err(literal_error("missing selector"));
    }
    let timeout_ms: u64 = if k == 0 {
        Action::DEFAULT_TIMEOUT_MS
    } else {
        proof {
            lemma_deep_view_chars(toks@[n - k]);
        }
        match token_ms(&toks[n - k]) {
            Some(v) => v,
            None => {
                return Err(invalid_ms_error("timeout_ms", name));
            },
        }
    };
    let settle_ms: u64 = if k == 2 {
        proof {
            lemma_deep_view_chars(toks@[n - 1]);
        }
        match token_ms(&toks[n - 1]) {
            Some(v) => v,
            None => {
                return Err(invalid_ms_error("settle_ms", name));
            },
        }
    } else {
        Action::DEFAULT_SETTLE_MS
    };
    let selector = string_of(selector);
    if click {
        Ok(Action::Click { selector, timeout_ms, settle_ms })
    } else {
        Ok(Action::Hover { selector, timeout_ms, settle_ms })
    }
}

/// The non-empty trimmed pieces, as strings.
fn collect_files(pieces: &Vec<Vec<char>>) -> (r: Vec<String>)
    ensures
        strings_model(r@) == nonempty_trimmed(pieces.deep_view()),
{
    let ghost pv = pieces.deep_view();
    let mut out: Vec<String> = Vec::new();
    let mut i: usize = 0;
    assert(strings_model(out@) =~= nonempty_trimmed(pv.take(0)));
    while i < pieces.len()
        invariant
            i <= pieces.len(),
            pv == pieces.deep_view(),
            strings_model(out@) == nonempty_trimmed(pv.take(i as int)),
        decreases pieces.len() - i,
    {
        proof {
            lemma_deep_view_chars(pieces@[i as int]);
        }
        assert(pv.take(i + 1).drop_last() =~= pv.take(i as int));
        assert(pv.take(i + 1).last() == pieces@[i as int]@);
        let t = trim_vec(&pieces[i]);
        if t.len() > 0 {
            let ghost before = strings_model(out@);
            let f = string_of(t);
            out.push(f);
            assert(strings_model(out@) =~= before.push(f@));
        }
        i = i + 1;
    }
    assert(pv.take(pieces.len() as int) =~= pv);
    out
}

fn parse_input_action(body: &Vec<char>, typing: bool) -> (r: Result<Action, SniffError>)
    ensures
        match r {
            Ok(a) => input_action_parse(body@, typing) == Ok::<
                ActionModel,
                (ErrorKind, Seq<char>),
            >(a@),
            Err(e) => input_action_parse(body@, typing) == Err::<
                ActionModel,
                (ErrorKind, Seq<char>),
            >(e@),
        },
{
    let (h, rest) = head_tail(body);
    let selector = trim_vec(&h);
    if selector.len() == 0 {
        return Err(literal_error("missing selector"));
    }
    let text = trim_vec(&rest);
    if typing {
        if text.len() == 0 {
            return Err(literal_error("missing text for `type` action"));
        }
        Ok(
            Action::Type {
                selector: string_of(selector),
                text: string_of(text),
                timeout_ms: Action::DEFAULT_TIMEOUT_MS,
                settle_ms: Action::DEFAULT_SETTLE_MS,
            },
        )
    } else {
        if text.len() == 0 {
            return Err(literal_error("missing files for `upload` action"));
        }
        let files = collect_files(&split_char(&rest, ','));
        Ok(
            Action::Upload {
                selector: string_of(selector),
                files,
                timeout_ms: Action::DEFAULT_TIMEOUT_MS,
                settle_ms: Action::DEFAULT_SETTLE_MS,
            },
        )
    }
}

/// Parse a `name:arg:arg` interaction action spec.
///
/// Formats: `click:<selector>[:<timeout_ms>[:<settle_ms>]]` |
/// `hover:<selector>[:<timeout_ms>[:<settle_ms>]]` |
/// `type:<selector>:<text>` (text may contain colons) |
/// `upload:<selector>:<file1,file2>` (files may contain colons).
pub fn parse_action(spec: &str) -> (r: Result<Action, SniffError>)
    ensures
        match r {
            Ok(a) => action_parse(spec@) == Ok::<ActionModel, (ErrorKind, Seq<char>)>(a@),
            Err(e) => action_parse(spec@) == Err::<ActionModel, (ErrorKind, Seq<char>)>(e@),
        },
{
    let s = chars_of(spec);
    let (h, body) = head_tail(&s);
    let name = trim_vec(&h);
    if eq_str(&name, "click") || eq_str(&name, "hover") {
        let click = eq_str(&name, "click");
        parse_pointer_action(&name, &body, click)
    } else if eq_str(&name, "type") || eq_str(&name, "upload") {
        let typing = eq_str(&name, "type");
        parse_input_action(&body, typing)
    } else {
        let mut m: Vec<char> = Vec::new();
        push_str(&mut m, "unknown action `");
        push_all(&mut m, &name);
        push_str(&mut m, "`");
        Err(action_error_exec(m))
    }
}


// ---------------------------------------------------------------------------
// Round trip of a formatted pointer action
// ---------------------------------------------------------------------------

proof fn lemma_split_append(a: Seq<char>, b: Seq<char>, c: char)
    ensures
        split(a.push(c) + b, c) == split(a, c) + split(b, c),
    decreases b.len(),
{
    if b.len() == 0 {
        assert(a.push(c) + b =~= a.push(c));
        assert(a.push(c).drop_last() =~= a);
        assert(split(a.push(c), c) =~= split(a, c) + split(b, c));
    } else {
        let b1 = b.drop_last();
        let x = b.last();
        lemma_split_append(a, b1, c);
        lemma_split_nonempty(b1, c);
        assert((a.push(c) + b).drop_last() =~= a.push(c) + b1);
        assert((a.push(c) + b).last() == x);
        let p = split(a, c) + split(b1, c);
        if x == c {
            assert(split(a, c) + split(b, c) =~= p.push(Seq::<char>::empty()));
        } else {
            let q = split(b1, c);
            assert(p.last() == q.last());
            assert(split(a, c) + split(b, c) =~= p.update(p.len() - 1, p.last().push(x)));
        }
    }
}

proof fn lemma_split_without(b: Seq<char>, c: char)
    requires
        forall|i: int| 0 <= i < b.len() ==> b[i] != c,
    ensures
        split(b, c) == seq![b],
    decreases b.len(),
{
    if b.len() > 0 {
        lemma_split_without(b.drop_last(), c);
        assert(b.drop_last().push(b.last()) =~= b);
    } else {
        assert(b =~= Seq::<char>::empty());
    }
}

proof fn lemma_join_split(s: Seq<char>, c: char)
    ensures
        join(split(s, c), c) == s,
    decreases s.len(),
{
    if s.len() > 0 {
        let s1 = s.drop_last();
        let x = s.last();
        lemma_join_split(s1, c);
        lemma_split_nonempty(s1, c);
        let p = split(s1, c);
        if x == c {
            let n = p.push(Seq::<char>::empty());
            assert(n.drop_last() =~= p);
            assert(join(n, c) =~= s1.push(c));
        } else {
            let n = p.update(p.len() - 1, p.last().push(x));
            if p.len() == 1 {
                assert(join(n, c) =~= s1.push(x));
            } else {
                assert(n.drop_last() =~= p.drop_last());
                assert(join(p, c) == join(p.drop_last(), c).push(c) + p.last());
                assert(join(n, c) =~= (join(p.drop_last(), c).push(c) + p.last()).push(x));
            }
        }
        assert(s1.push(x) =~= s);
    }
}

proof fn lemma_digit_char(d: nat)
    requires
        d < 10,
    ensures
        digit_value(digit_char(d)) == d,
        is_digit(digit_char(d)),
        digit_char(d) != ':',
        !is_ws(digit_char(d)),
{
    assert(d % 10 == d);
}

proof fn lemma_decimal_digits(n: nat)
    ensures
        decimal(n).len() > 0,
        all_digits(decimal(n)),
        digits_value(decimal(n)) == n,
        forall|i: int| 0 <= i < decimal(n).len() ==> #[trigger] decimal(n)[i] != ':' && !is_ws(
            decimal(n)[i],
        ),
    decreases n,
{
    if n < 10 {
        lemma_digit_char(n);
        let d = decimal(n);
        assert(d.drop_last() =~= Seq::<char>::empty());
        assert(digits_value(d) == digits_value(d.drop_last()) * 10 + digit_value(d.last()));
    } else {
        lemma_decimal_digits(n / 10);
        lemma_digit_char(n % 10);
        let p = decimal(n / 10);
        let d = decimal(n);
        assert(d.drop_last() =~= p);
        assert(n == (n / 10) * 10 + n % 10) by (nonlinear_arith);
        assert forall|i: int| 0 <= i < d.len() implies is_digit(#[trigger] d[i]) && d[i] != ':' && !is_ws(
            d[i],
        ) by {
            if i < p.len() {
                assert(d[i] == p[i]);
            }
        }
        assert(digits_value(d) == digits_value(p) * 10 + digit_value(digit_char(n % 10)));
    }
}

proof fn lemma_trim_settled(t: Seq<char>)
    requires
        t.len() > 0,
        !is_ws(t[0]),
        !is_ws(t.last()),
    ensures
        trim(t) == t,
{
    assert(crate::text::trim_start(t) == t);
    assert(crate::text::trim_end(t) == t);
}

proof fn lemma_number_token(n: nat)
    ensures
        trim(decimal(n)) == decimal(n),
        is_numeric_token(decimal(n)),
        n <= u64::MAX ==> parse_unsigned(trim(decimal(n)), u64::MAX as nat) == Some(n),
{
    lemma_decimal_digits(n);
    let d = decimal(n);
    assert(!is_ws(d[0]) && !is_ws(d[d.len() - 1]));
    lemma_trim_settled(d);
    assert(is_digit(d[0]));
}

proof fn lemma_named_action(name: Seq<char>, rest: Seq<char>)
    requires
        forall|i: int| 0 <= i < name.len() ==> name[i] != ':',
    ensures
        head(name.push(':') + rest) == name,
        tail(name.push(':') + rest) == rest,
{
    let x = name.push(':') + rest;
    assert(x[name.len() as int] == ':');
    assert forall|j: int| 0 <= j < name.len() implies x[j] != ':' by {
        assert(x[j] == name[j]);
    }
    lemma_find_first_char(x, ':', name.len() as int);
    assert(x.take(name.len() as int) =~= name);
    assert(x.skip(name.len() as int + 1) =~= rest);
}

/// A `click` action written out as `click:SELECTOR:TIMEOUT:SETTLE` parses
/// back to its selector and times, for every trimmed non-empty selector
/// whose last `:`-separated piece is not a number.
#[verifier::rlimit(50)]
pub proof fn lemma_click_round_trip(s: Seq<char>, t: u64, u: u64)
    requires
        s.len() > 0,
        trim(s) == s,
        !is_numeric_token(split(s, ':').last()),
    ensures
        action_parse("click:"@ + s + seq![':'] + decimal(t as nat) + seq![':'] + decimal(u as nat))
            == Ok::<ActionModel, (ErrorKind, Seq<char>)>(
            ActionModel::Click { selector: s, timeout_ms: t, settle_ms: u },
        ),
{
    reveal_strlit("click:");
    reveal_strlit("click");
    reveal_strlit("hover");
    let dt = decimal(t as nat);
    let du = decimal(u as nat);
    lemma_number_token(t as nat);
    lemma_number_token(u as nat);
    lemma_decimal_digits(t as nat);
    lemma_decimal_digits(u as nat);
    lemma_split_without(dt, ':');
    lemma_split_without(du, ':');
    lemma_join_split(s, ':');
    lemma_split_nonempty(s, ':');
    let ts = split(s, ':');
    assert(trailing_numeric(ts) == 0);
    let body = s + seq![':'] + dt + seq![':'] + du;
    assert("click:"@ + s + seq![':'] + dt + seq![':'] + du =~= "click"@.push(':') + body);
    lemma_named_action("click"@, body);
    lemma_trim_settled("click"@);
    let inner = s.push(':') + dt;
    assert(body =~= inner.push(':') + du);
    lemma_split_append(inner, du, ':');
    lemma_split_append(s, dt, ':');
    let toks = split(body, ':');
    assert(toks =~= ts + seq![dt] + seq![du]);
    assert(toks.drop_last() =~= ts + seq![dt]);
    assert(toks.drop_last().drop_last() =~= ts);
    assert(trailing_numeric(toks.drop_last()) == 1);
    assert(trailing_numeric(toks) == 2);
    assert(toks.take(toks.len() - 2) =~= ts);
    assert(toks[toks.len() - 2] == dt);
    assert(toks[toks.len() - 1] == du);
}

/// A `hover` action written out as `hover:SELECTOR:TIMEOUT` parses back to
/// its selector and timeout, with the default settle time, for every
/// trimmed non-empty selector whose last `:`-separated piece is not a
/// number.
#[verifier::rlimit(50)]
pub proof fn lemma_hover_round_trip(s: Seq<char>, t: u64)
    requires
        s.len() > 0,
        trim(s) == s,
        !is_numeric_token(split(s, ':').last()),
    ensures
        action_parse("hover:"@ + s + seq![':'] + decimal(t as nat)) == Ok::<
            ActionModel,
            (ErrorKind, Seq<char>),
        >(ActionModel::Hover { selector: s, timeout_ms: t, settle_ms: Action::DEFAULT_SETTLE_MS }),
{
    reveal_strlit("hover:");
    reveal_strlit("click");
    reveal_strlit("hover");
    let dt = decimal(t as nat);
    lemma_number_token(t as nat);
    lemma_decimal_digits(t as nat);
    lemma_split_without(dt, ':');
    lemma_join_split(s, ':');
    lemma_split_nonempty(s, ':');
    let ts = split(s, ':');
    assert(trailing_numeric(ts) == 0);
    let body = s + seq![':'] + dt;
    assert("hover:"@ + s + seq![':'] + dt =~= "hover"@.push(':') + body);
    lemma_named_action("hover"@, body);
    lemma_trim_settled("hover"@);
    assert(body =~= s.push(':') + dt);
    lemma_split_append(s, dt, ':');
    let toks = split(body, ':');
    assert(toks =~= ts + seq![dt]);
    assert(toks.drop_last() =~= ts);
    assert(trailing_numeric(toks) == 1);
    assert(toks.take(toks.len() - 1) =~= ts);
    assert(toks[toks.len() - 1] == dt);
}

} // verus!
