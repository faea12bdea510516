//! Recognises one line of the control-mode protocol and extracts its fields.
use vstd::prelude::*;
use vstd::slice::{slice_subrange, slice_to_vec};
use vstd::utf8::{decode_utf8, valid_utf8};

use crate::event::{Event, EventV};
use crate::layout::{decimal, lemma_decimal};
use crate::unvis::{
    is_vis_of, join_chunks, lemma_unvis_inverts_any_vis, string_from_utf8, unvis_bytes,
    unvis_decode, unvis_text, unvis_to_string, UnvisError, DIGIT_ZERO,
};

verus! {

/// The separator between the fields of a line.
pub const SPACE: u8 = 32;

/// The sigil of a pane id, `%`.
pub const PANE_SIGIL: u8 = 37;

/// The sigil of a window id, `@`.
pub const WINDOW_SIGIL: u8 = 64;

/// The sigil of a session id, `$`.
pub const SESSION_SIGIL: u8 = 36;

/// Why a line is not a notification.
#[derive(Debug, Clone, Copy, PartialEq, Eq, Structural)]
pub enum LineError {
    /// The line has none of the known shapes, or a number does not fit its type.
    Syntax,
    /// A text or payload field could not be decoded.
    Text(UnvisError),
}

/// `i` is the length of the run of non-space bytes that starts `s`.
pub open spec fn is_head_len(s: Seq<u8>, i: int) -> bool {
    &&& 0 <= i <= s.len()
    &&& forall|j: int| 0 <= j < i ==> s[j] != SPACE
    &&& i < s.len() ==> s[i] == SPACE
}

pub open spec fn head_len(s: Seq<u8>) -> int {
    choose|i: int| is_head_len(s, i)
}

/// The bytes of `s` up to its first space.
pub open spec fn first_word(s: Seq<u8>) -> Seq<u8> {
    s.subrange(0, head_len(s))
}

/// What follows the first space of `s`, if it has one.
pub open spec fn after_word(s: Seq<u8>) -> Option<Seq<u8>> {
    if head_len(s) < s.len() {
        Some(s.subrange(head_len(s) + 1, s.len() as int))
    } else {
        None
    }
}

/// `s` split at its first space, if it has one.
pub open spec fn split_pair(s: Seq<u8>) -> Option<(Seq<u8>, Seq<u8>)> {
    match after_word(s) {
        Some(rest) => Some((first_word(s), rest)),
        None => None,
    }
}

/// A non-empty token without spaces.
pub open spec fn is_word(s: Seq<u8>) -> bool {
    s.len() > 0 && forall|j: int| 0 <= j < s.len() ==> s[j] != SPACE
}

pub open spec fn all_digits(s: Seq<u8>) -> bool {
    forall|j: int| 0 <= j < s.len() ==> DIGIT_ZERO <= #[trigger] s[j] <= DIGIT_ZERO + 9
}

/// The decimal value of a run of ASCII digits.
pub open spec fn digits_value(s: Seq<u8>) -> int
    decreases s.len(),
{
    if s.len() == 0 {
        0
    } else {
        digits_value(s.drop_last()) * 10 + (s.last() - DIGIT_ZERO)
    }
}

/// The value of a non-empty decimal numeral that is at most `max`.
pub open spec fn number_value(s: Seq<u8>, max: int) -> Option<int> {
    if s.len() > 0 && all_digits(s) && digits_value(s) <= max {
        Some(digits_value(s))
    } else {
        None
    }
}

pub open spec fn u64_of(s: Seq<u8>) -> Option<u64> {
    match number_value(s, u64::MAX as int) {
        Some(v) => Some(v as u64),
        None => None,
    }
}

pub open spec fn i64_of(s: Seq<u8>) -> Option<i64> {
    match number_value(s, i64::MAX as int) {
        Some(v) => Some(v as i64),
        None => None,
    }
}

/// An identifier written as a sigil byte (`%`, `@` or `$`) and a numeral.
pub open spec fn id_of(sigil: u8, s: Seq<u8>) -> Option<u64> {
    if s.len() > 0 && s[0] == sigil {
        u64_of(s.drop_first())
    } else {
        None
    }
}

/// The three numbers of a `%begin`, `%end` or `%error` line.
pub open spec fn guard_of(r: Seq<u8>) -> Option<(i64, u64, i64)> {
    match split_pair(r) {
        Some((a, r2)) => match split_pair(r2) {
            Some((b, c)) => match (i64_of(a), u64_of(b), i64_of(c)) {
                (Some(t), Some(n), Some(f)) => Some((t, n, f)),
                _ => None,
            },
            None => None,
        },
        None => None,
    }
}

/// Text taken as it stands, which must be UTF-8. Bytes that are not UTF-8 reject
/// the line rather than being replaced, so that no text field is silently altered.
pub open spec fn verbatim_text(s: Seq<u8>) -> Result<Seq<char>, LineError> {
    if valid_utf8(s) {
        Ok(decode_utf8(s))
    } else {
        Err(LineError::Text(UnvisError::NotUtf8))
    }
}

/// Text that tmux quoted with `vis`.
pub open spec fn quoted_text(s: Seq<u8>) -> Result<Seq<char>, LineError> {
    match unvis_text(s) {
        Ok(t) => Ok(t),
        Err(e) => Err(LineError::Text(e)),
    }
}

/// A pane payload that tmux quoted with `vis`, kept as bytes.
pub open spec fn quoted_bytes(s: Seq<u8>) -> Result<Seq<u8>, LineError> {
    match unvis_decode(s) {
        Ok(t) => Ok(t),
        Err(b) => Err(LineError::Text(UnvisError::BadEscape(b))),
    }
}

proof fn lemma_head_len(s: Seq<u8>, i: int)
    requires
        is_head_len(s, i),
    ensures
        head_len(s) == i,
{
    let k = head_len(s);
    assert(is_head_len(s, k));
    if k < i {
        assert(s[k] != SPACE);
    }
    if k > i {
        assert(s[i] != SPACE);
    }
}

fn head_len_exec(s: &[u8]) -> (i: usize)
    ensures
        i == head_len(s@),
        is_head_len(s@, i as int),
{
    let mut i: usize = 0;
    while i < s.len() && s[i] != SPACE
        invariant
            i <= s@.len(),
            forall|j: int| 0 <= j < i ==> s@[j] != SPACE,
        decreases s@.len() - i,
    {
        i += 1;
    }
    proof {
        lemma_head_len(s@, i as int);
    }
    i
}

fn first_word_exec(s: &[u8]) -> (w: &[u8])
    ensures
        w@ == first_word(s@),
{
    let i = head_len_exec(s);
    slice_subrange(s, 0, i)
}

fn split_pair_exec(s: &[u8]) -> (r: Option<(&[u8], &[u8])>)
    ensures
        match split_pair(s@) {
            Some((a, b)) => r matches Some(p) && p.0@ == a && p.1@ == b,
            None => r is None,
        },
        is_head_len(s@, head_len(s@)),
{
    let i = head_len_exec(s);
    if i < s.len() {
        Some((slice_subrange(s, 0, i), slice_subrange(s, i + 1, s.len())))
    } else {
        None
    }
}

fn is_word_exec(s: &[u8]) -> (r: bool)
    ensures
        r == is_word(s@),
{
    let i = head_len_exec(s);
    s.len() > 0 && i == s.len()
}

proof fn lemma_digits_nonneg(s: Seq<u8>)
    requires
        all_digits(s),
    ensures
        digits_value(s) >= 0,
    decreases s.len(),
{
    if s.len() > 0 {
        lemma_digits_nonneg(s.drop_last());
    }
}

/// A numeral is worth at least as much as any of its prefixes.
proof fn lemma_digits_prefix(s: Seq<u8>, k: int)
    requires
        0 <= k <= s.len(),
        all_digits(s),
    ensures
        digits_value(s.subrange(0, k)) <= digits_value(s),
    decreases s.len(),
{
    if k == s.len() {
        assert(s.subrange(0, k) =~= s);
    } else {
        assert(s.drop_last().subrange(0, k) =~= s.subrange(0, k));
        lemma_digits_prefix(s.drop_last(), k);
        lemma_digits_nonneg(s.drop_last());
    }
}

fn parse_number(s: &[u8], max: u64) -> (r: Option<u64>)
    ensures
        match number_value(s@, max as int) {
            Some(v) => r == Some(v as u64),
            None => r is None,
        },
        r matches Some(x) ==> x <= max,
{
    if s.len() == 0 {
        return None;
    }
    let mut v: u64 = 0;
    let mut i: usize = 0;
    while i < s.len()
        invariant
            i <= s@.len(),
            all_digits(s@.subrange(0, i as int)),
            v as int == digits_value(s@.subrange(0, i as int)),
            v <= max,
        decreases s@.len() - i,
    {
        let b = s[i];
        assert(s@.subrange(0, i + 1).drop_last() =~= s@.subrange(0, i as int));
        if b < DIGIT_ZERO || b > DIGIT_ZERO + 9 {
            assert(!all_digits(s@));
            return None;
        }
        let next = match v.checked_mul(10) {
            Some(m) => m.checked_add((b - DIGIT_ZERO) as u64),
            None => None,
        };
        match next {
            Some(n) if n <= max => {
                v = n;
            },
            _ => {
                proof {
                    if all_digits(s@) {
                        lemma_digits_prefix(s@, i + 1);
                    }
                }
                return None;
            },
        }
        i += 1;
    }
    assert(s@.subrange(0, s@.len() as int) =~= s@);
    Some(v)
}

pub(crate) fn parse_u64(s: &[u8]) -> (r: Option<u64>)
    ensures
        r == u64_of(s@),
{
    parse_number(s, u64::MAX)
}

fn parse_i64(s: &[u8]) -> (r: Option<i64>)
    ensures
        r == i64_of(s@),
{
    proof {
        if all_digits(s@) {
            lemma_digits_nonneg(s@);
        }
    }
    match parse_number(s, i64::MAX as u64) {
        Some(v) => Some(v as i64),
        None => None,
    }
}

fn parse_id(sigil: u8, s: &[u8]) -> (r: Option<u64>)
    ensures
        r == id_of(sigil, s@),
{
    if s.len() > 0 && s[0] == sigil {
        let digits = slice_subrange(s, 1, s.len());
        assert(digits@ =~= s@.drop_first());
        parse_u64(digits)
    } else {
        None
    }
}

fn parse_guard(r: &[u8]) -> (g: Option<(i64, u64, i64)>)
    ensures
        g == guard_of(r@),
{
    let (a, r2) = split_pair_exec(r)?;
    let (b, c) = split_pair_exec(r2)?;
    match (parse_i64(a), parse_u64(b), parse_i64(c)) {
        (Some(t), Some(n), Some(f)) => Some((t, n, f)),
        _ => None,
    }
}

fn verbatim_exec(s: &[u8]) -> (r: Result<String, LineError>)
    ensures
        match verbatim_text(s@) {
            Ok(t) => r matches Ok(v) && v@ == t,
            Err(e) => r == Err::<String, LineError>(e),
        },
{
    match string_from_utf8(slice_to_vec(s)) {
        Some(t) => Ok(t),
        None => Err(LineError::Text(UnvisError::NotUtf8)),
    }
}

fn quoted_exec(s: &[u8]) -> (r: Result<String, LineError>)
    ensures
        match quoted_text(s@) {
            Ok(t) => r matches Ok(v) && v@ == t,
            Err(e) => r == Err::<String, LineError>(e),
        },
{
    match unvis_to_string(s) {
        Ok(t) => Ok(t),
        Err(e) => Err(LineError::Text(e)),
    }
}

fn quoted_bytes_exec(s: &[u8]) -> (r: Result<Vec<u8>, LineError>)
    ensures
        match quoted_bytes(s@) {
            Ok(t) => r matches Ok(v) && v@ == t,
            Err(e) => r == Err::<Vec<u8>, LineError>(e),
        },
{
    match unvis_bytes(s) {
        Ok(t) => Ok(t),
        Err(e) => Err(LineError::Text(e)),
    }
}

fn bytes_eq(a: &[u8], b: &Vec<u8>) -> (r: bool)
    ensures
        r == (a@ == b@),
{
    if a.len() != b.len() {
        return false;
    }
    let mut i: usize = 0;
    while i < a.len()
        invariant
            i <= a@.len(),
            a@.len() == b@.len(),
            forall|j: int| 0 <= j < i ==> a@[j] == b@[j],
        decreases a@.len() - i,
    {
        if a[i] != b[i] {
            return false;
        }
        i += 1;
    }
    assert(a@ =~= b@);
    true
}

/// The notification names that open a line, each written with its leading `%`.
#[derive(Debug, Clone, Copy, PartialEq, Eq, Structural)]
pub enum Keyword {
    Begin,
    End,
    Error,
    ClientDetached,
    ClientSessionChanged,
    ConfigError,
    Continue,
    Exit,
    ExtendedOutput,
    LayoutChange,
    Message,
    Output,
    PaneModeChanged,
    PasteBufferChanged,
    PasteBufferDeleted,
    Pause,
    SessionChanged,
    SessionRenamed,
    SessionWindowChanged,
    SessionsChanged,
    SubscriptionChanged,
    UnlinkedWindowAdd,
    UnlinkedWindowClose,
    UnlinkedWindowRenamed,
    WindowAdd,
    WindowClose,
    WindowPaneChanged,
    WindowRenamed,
}

/// The bytes of a notification name.
pub open spec fn keyword_text(k: Keyword) -> Seq<u8> {
    match k {
        Keyword::Begin => seq![37u8, 98, 101, 103, 105, 110],  // %begin
        Keyword::End => seq![37u8, 101, 110, 100],  // %end
        Keyword::Error => seq![37u8, 101, 114, 114, 111, 114],  // %error
        Keyword::ClientDetached => seq![37u8, 99, 108, 105, 101, 110, 116, 45, 100, 101, 116, 97, 99, 104, 101, 100],  // %client-detached
        Keyword::ClientSessionChanged => seq![37u8, 99, 108, 105, 101, 110, 116, 45, 115, 101, 115, 115, 105, 111, 110, 45, 99, 104, 97, 110, 103, 101, 100],  // %client-session-changed
        Keyword::ConfigError => seq![37u8, 99, 111, 110, 102, 105, 103, 45, 101, 114, 114, 111, 114],  // %config-error
        Keyword::Continue => seq![37u8, 99, 111, 110, 116, 105, 110, 117, 101],  // %continue
        Keyword::Exit => seq![37u8, 101, 120, 105, 116],  // %exit
        Keyword::ExtendedOutput => seq![37u8, 101, 120, 116, 101, 110, 100, 101, 100, 45, 111, 117, 116, 112, 117, 116],  // %extended-output
        Keyword::LayoutChange => seq![37u8, 108, 97, 121, 111, 117, 116, 45, 99, 104, 97, 110, 103, 101],  // %layout-change
        Keyword::Message => seq![37u8, 109, 101, 115, 115, 97, 103, 101],  // %message
        Keyword::Output => seq![37u8, 111, 117, 116, 112, 117, 116],  // %output
        Keyword::PaneModeChanged => seq![37u8, 112, 97, 110, 101, 45, 109, 111, 100, 101, 45, 99, 104, 97, 110, 103, 101, 100],  // %pane-mode-changed
        Keyword::PasteBufferChanged => seq![37u8, 112, 97, 115, 116, 101, 45, 98, 117, 102, 102, 101, 114, 45, 99, 104, 97, 110, 103, 101, 100],  // %paste-buffer-changed
        Keyword::PasteBufferDeleted => seq![37u8, 112, 97, 115, 116, 101, 45, 98, 117, 102, 102, 101, 114, 45, 100, 101, 108, 101, 116, 101, 100],  // %paste-buffer-deleted
        Keyword::Pause => seq![37u8, 112, 97, 117, 115, 101],  // %pause
        Keyword::SessionChanged => seq![37u8, 115, 101, 115, 115, 105, 111, 110, 45, 99, 104, 97, 110, 103, 101, 100],  // %session-changed
        Keyword::SessionRenamed => seq![37u8, 115, 101, 115, 115, 105, 111, 110, 45, 114, 101, 110, 97, 109, 101, 100],  // %session-renamed
        Keyword::SessionWindowChanged => seq![37u8, 115, 101, 115, 115, 105, 111, 110, 45, 119, 105, 110, 100, 111, 119, 45, 99, 104, 97, 110, 103, 101, 100],  // %session-window-changed
        Keyword::SessionsChanged => seq![37u8, 115, 101, 115, 115, 105, 111, 110, 115, 45, 99, 104, 97, 110, 103, 101, 100],  // %sessions-changed
        Keyword::SubscriptionChanged => seq![37u8, 115, 117, 98, 115, 99, 114, 105, 112, 116, 105, 111, 110, 45, 99, 104, 97, 110, 103, 101, 100],  // %subscription-changed
        Keyword::UnlinkedWindowAdd => seq![37u8, 117, 110, 108, 105, 110, 107, 101, 100, 45, 119, 105, 110, 100, 111, 119, 45, 97, 100, 100],  // %unlinked-window-add
        Keyword::UnlinkedWindowClose => seq![37u8, 117, 110, 108, 105, 110, 107, 101, 100, 45, 119, 105, 110, 100, 111, 119, 45, 99, 108, 111, 115, 101],  // %unlinked-window-close
        Keyword::UnlinkedWindowRenamed => seq![37u8, 117, 110, 108, 105, 110, 107, 101, 100, 45, 119, 105, 110, 100, 111, 119, 45, 114, 101, 110, 97, 109, 101, 100],  // %unlinked-window-renamed
        Keyword::WindowAdd => seq![37u8, 119, 105, 110, 100, 111, 119, 45, 97, 100, 100],  // %window-add
        Keyword::WindowClose => seq![37u8, 119, 105, 110, 100, 111, 119, 45, 99, 108, 111, 115, 101],  // %window-close
        Keyword::WindowPaneChanged => seq![37u8, 119, 105, 110, 100, 111, 119, 45, 112, 97, 110, 101, 45, 99, 104, 97, 110, 103, 101, 100],  // %window-pane-changed
        Keyword::WindowRenamed => seq![37u8, 119, 105, 110, 100, 111, 119, 45, 114, 101, 110, 97, 109, 101, 100],  // %window-renamed
    }
}

/// The notification that a leading word names, if any.
pub open spec fn keyword_of(w: Seq<u8>) -> Option<Keyword> {
    if w == keyword_text(Keyword::Begin) {
        Some(Keyword::Begin)
    } else if w == keyword_text(Keyword::End) {
        Some(Keyword::End)
    } else if w == keyword_text(Keyword::Error) {
        Some(Keyword::Error)
    } else if w == keyword_text(Keyword::ClientDetached) {
        Some(Keyword::ClientDetached)
    } else if w == keyword_text(Keyword::ClientSessionChanged) {
        Some(Keyword::ClientSessionChanged)
    } else if w == keyword_text(Keyword::ConfigError) {
        Some(Keyword::ConfigError)
    } else if w == keyword_text(Keyword::Continue) {
        Some(Keyword::Continue)
    } else if w == keyword_text(Keyword::Exit) {
        Some(Keyword::Exit)
    } else if w == keyword_text(Keyword::ExtendedOutput) {
        Some(Keyword::ExtendedOutput)
    } else if w == keyword_text(Keyword::LayoutChange) {
        Some(Keyword::LayoutChange)
    } else if w == keyword_text(Keyword::Message) {
        Some(Keyword::Message)
    } else if w == keyword_text(Keyword::Output) {
        Some(Keyword::Output)
    } else if w == keyword_text(Keyword::PaneModeChanged) {
        Some(Keyword::PaneModeChanged)
    } else if w == keyword_text(Keyword::PasteBufferChanged) {
        Some(Keyword::PasteBufferChanged)
    } else if w == keyword_text(Keyword::PasteBufferDeleted) {
        Some(Keyword::PasteBufferDeleted)
    } else if w == keyword_text(Keyword::Pause) {
        Some(Keyword::Pause)
    } else if w == keyword_text(Keyword::SessionChanged) {
        Some(Keyword::SessionChanged)
    } else if w == keyword_text(Keyword::SessionRenamed) {
        Some(Keyword::SessionRenamed)
    } else if w == keyword_text(Keyword::SessionWindowChanged) {
        Some(Keyword::SessionWindowChanged)
    } else if w == keyword_text(Keyword::SessionsChanged) {
        Some(Keyword::SessionsChanged)
    } else if w == keyword_text(Keyword::SubscriptionChanged) {
        Some(Keyword::SubscriptionChanged)
    } else if w == keyword_text(Keyword::UnlinkedWindowAdd) {
        Some(Keyword::UnlinkedWindowAdd)
    } else if w == keyword_text(Keyword::UnlinkedWindowClose) {
        Some(Keyword::UnlinkedWindowClose)
    } else if w == keyword_text(Keyword::UnlinkedWindowRenamed) {
        Some(Keyword::UnlinkedWindowRenamed)
    } else if w == keyword_text(Keyword::WindowAdd) {
        Some(Keyword::WindowAdd)
    } else if w == keyword_text(Keyword::WindowClose) {
        Some(Keyword::WindowClose)
    } else if w == keyword_text(Keyword::WindowPaneChanged) {
        Some(Keyword::WindowPaneChanged)
    } else if w == keyword_text(Keyword::WindowRenamed) {
        Some(Keyword::WindowRenamed)
    } else {
        None
    }
}

fn keyword_bytes(k: Keyword) -> (r: Vec<u8>)
    ensures
        r@ == keyword_text(k),
{
    match k {
        Keyword::Begin => vec![37, 98, 101, 103, 105, 110],
        Keyword::End => vec![37, 101, 110, 100],
        Keyword::Error => vec![37, 101, 114, 114, 111, 114],
        Keyword::ClientDetached => vec![37, 99, 108, 105, 101, 110, 116, 45, 100, 101, 116, 97, 99, 104, 101, 100],
        Keyword::ClientSessionChanged => vec![37, 99, 108, 105, 101, 110, 116, 45, 115, 101, 115, 115, 105, 111, 110, 45, 99, 104, 97, 110, 103, 101, 100],
        Keyword::ConfigError => vec![37, 99, 111, 110, 102, 105, 103, 45, 101, 114, 114, 111, 114],
        Keyword::Continue => vec![37, 99, 111, 110, 116, 105, 110, 117, 101],
        Keyword::Exit => vec![37, 101, 120, 105, 116],
        Keyword::ExtendedOutput => vec![37, 101, 120, 116, 101, 110, 100, 101, 100, 45, 111, 117, 116, 112, 117, 116],
        Keyword::LayoutChange => vec![37, 108, 97, 121, 111, 117, 116, 45, 99, 104, 97, 110, 103, 101],
        Keyword::Message => vec![37, 109, 101, 115, 115, 97, 103, 101],
        Keyword::Output => vec![37, 111, 117, 116, 112, 117, 116],
        Keyword::PaneModeChanged => vec![37, 112, 97, 110, 101, 45, 109, 111, 100, 101, 45, 99, 104, 97, 110, 103, 101, 100],
        Keyword::PasteBufferChanged => vec![37, 112, 97, 115, 116, 101, 45, 98, 117, 102, 102, 101, 114, 45, 99, 104, 97, 110, 103, 101, 100],
        Keyword::PasteBufferDeleted => vec![37, 112, 97, 115, 116, 101, 45, 98, 117, 102, 102, 101, 114, 45, 100, 101, 108, 101, 116, 101, 100],
        Keyword::Pause => vec![37, 112, 97, 117, 115, 101],
        Keyword::SessionChanged => vec![37, 115, 101, 115, 115, 105, 111, 110, 45, 99, 104, 97, 110, 103, 101, 100],
        Keyword::SessionRenamed => vec![37, 115, 101, 115, 115, 105, 111, 110, 45, 114, 101, 110, 97, 109, 101, 100],
        Keyword::SessionWindowChanged => vec![37, 115, 101, 115, 115, 105, 111, 110, 45, 119, 105, 110, 100, 111, 119, 45, 99, 104, 97, 110, 103, 101, 100],
        Keyword::SessionsChanged => vec![37, 115, 101, 115, 115, 105, 111, 110, 115, 45, 99, 104, 97, 110, 103, 101, 100],
        Keyword::SubscriptionChanged => vec![37, 115, 117, 98, 115, 99, 114, 105, 112, 116, 105, 111, 110, 45, 99, 104, 97, 110, 103, 101, 100],
        Keyword::UnlinkedWindowAdd => vec![37, 117, 110, 108, 105, 110, 107, 101, 100, 45, 119, 105, 110, 100, 111, 119, 45, 97, 100, 100],
        Keyword::UnlinkedWindowClose => vec![37, 117, 110, 108, 105, 110, 107, 101, 100, 45, 119, 105, 110, 100, 111, 119, 45, 99, 108, 111, 115, 101],
        Keyword::UnlinkedWindowRenamed => vec![37, 117, 110, 108, 105, 110, 107, 101, 100, 45, 119, 105, 110, 100, 111, 119, 45, 114, 101, 110, 97, 109, 101, 100],
        Keyword::WindowAdd => vec![37, 119, 105, 110, 100, 111, 119, 45, 97, 100, 100],
        Keyword::WindowClose => vec![37, 119, 105, 110, 100, 111, 119, 45, 99, 108, 111, 115, 101],
        Keyword::WindowPaneChanged => vec![37, 119, 105, 110, 100, 111, 119, 45, 112, 97, 110, 101, 45, 99, 104, 97, 110, 103, 101, 100],
        Keyword::WindowRenamed => vec![37, 119, 105, 110, 100, 111, 119, 45, 114, 101, 110, 97, 109, 101, 100],
    }
}

fn keyword_exec(w: &[u8]) -> (r: Option<Keyword>)
    ensures
        r == keyword_of(w@),
{
    if bytes_eq(w, &keyword_bytes(Keyword::Begin)) {
        Some(Keyword::Begin)
    } else if bytes_eq(w, &keyword_bytes(Keyword::End)) {
        Some(Keyword::End)
    } else if bytes_eq(w, &keyword_bytes(Keyword::Error)) {
        Some(Keyword::Error)
    } else if bytes_eq(w, &keyword_bytes(Keyword::ClientDetached)) {
        Some(Keyword::ClientDetached)
    } else if bytes_eq(w, &keyword_bytes(Keyword::ClientSessionChanged)) {
        Some(Keyword::ClientSessionChanged)
    } else if bytes_eq(w, &keyword_bytes(Keyword::ConfigError)) {
        Some(Keyword::ConfigError)
    } else if bytes_eq(w, &keyword_bytes(Keyword::Continue)) {
        Some(Keyword::Continue)
    } else if bytes_eq(w, &keyword_bytes(Keyword::Exit)) {
        Some(Keyword::Exit)
    } else if bytes_eq(w, &keyword_bytes(Keyword::ExtendedOutput)) {
        Some(Keyword::ExtendedOutput)
    } else if bytes_eq(w, &keyword_bytes(Keyword::LayoutChange)) {
        Some(Keyword::LayoutChange)
    } else if bytes_eq(w, &keyword_bytes(Keyword::Message)) {
        Some(Keyword::Message)
    } else if bytes_eq(w, &keyword_bytes(Keyword::Output)) {
        Some(Keyword::Output)
    } else if bytes_eq(w, &keyword_bytes(Keyword::PaneModeChanged)) {
        Some(Keyword::PaneModeChanged)
    } else if bytes_eq(w, &keyword_bytes(Keyword::PasteBufferChanged)) {
        Some(Keyword::PasteBufferChanged)
    } else if bytes_eq(w, &keyword_bytes(Keyword::PasteBufferDeleted)) {
        Some(Keyword::PasteBufferDeleted)
    } else if bytes_eq(w, &keyword_bytes(Keyword::Pause)) {
        Some(Keyword::Pause)
    } else if bytes_eq(w, &keyword_bytes(Keyword::SessionChanged)) {
        Some(Keyword::SessionChanged)
    } else if bytes_eq(w, &keyword_bytes(Keyword::SessionRenamed)) {
        Some(Keyword::SessionRenamed)
    } else if bytes_eq(w, &keyword_bytes(Keyword::SessionWindowChanged)) {
        Some(Keyword::SessionWindowChanged)
    } else if bytes_eq(w, &keyword_bytes(Keyword::SessionsChanged)) {
        Some(Keyword::SessionsChanged)
    } else if bytes_eq(w, &keyword_bytes(Keyword::SubscriptionChanged)) {
        Some(Keyword::SubscriptionChanged)
    } else if bytes_eq(w, &keyword_bytes(Keyword::UnlinkedWindowAdd)) {
        Some(Keyword::UnlinkedWindowAdd)
    } else if bytes_eq(w, &keyword_bytes(Keyword::UnlinkedWindowClose)) {
        Some(Keyword::UnlinkedWindowClose)
    } else if bytes_eq(w, &keyword_bytes(Keyword::UnlinkedWindowRenamed)) {
        Some(Keyword::UnlinkedWindowRenamed)
    } else if bytes_eq(w, &keyword_bytes(Keyword::WindowAdd)) {
        Some(Keyword::WindowAdd)
    } else if bytes_eq(w, &keyword_bytes(Keyword::WindowClose)) {
        Some(Keyword::WindowClose)
    } else if bytes_eq(w, &keyword_bytes(Keyword::WindowPaneChanged)) {
        Some(Keyword::WindowPaneChanged)
    } else if bytes_eq(w, &keyword_bytes(Keyword::WindowRenamed)) {
        Some(Keyword::WindowRenamed)
    } else {
        None
    }
}


/// The event of a notification that has nothing after its name.
pub open spec fn bare_event(k: Keyword) -> Result<EventV, LineError> {
    match k {
        Keyword::Exit => Ok(EventV::Exit { reason: None }),
        Keyword::SessionsChanged => Ok(EventV::SessionsChanged),
        Keyword::SubscriptionChanged => Ok(EventV::SubscriptionChanged),
        _ => Err(LineError::Syntax),
    }
}

/// The event of a `%layout-change` line from what follows its name.
pub open spec fn layout_change_event(r: Seq<u8>) -> Result<EventV, LineError> {
    match split_pair(r) {
        None => Err(LineError::Syntax),
        Some((w, r2)) => match id_of(WINDOW_SIGIL, w) {
            None => Err(LineError::Syntax),
            Some(window) => {
                let layout = first_word(r2);
                let extra = after_word(r2);
                let visible = match extra {
                    Some(r3) => Some(first_word(r3)),
                    None => None,
                };
                let flags = match extra {
                    Some(r3) => after_word(r3),
                    None => None,
                };
                if layout.len() == 0 || (visible matches Some(v) && v.len() == 0) || (
                flags matches Some(f) && !is_word(f)) {
                    Err(LineError::Syntax)
                } else {
                    match quoted_text(layout) {
                        Err(e) => Err(e),
                        Ok(layout) => match visible {
                            None => Ok(
                                EventV::LayoutChange {
                                    window,
                                    layout,
                                    visible_layout: None,
                                    raw_flags: None,
                                },
                            ),
                            Some(v) => match verbatim_text(v) {
                                Err(e) => Err(e),
                                Ok(v) => match flags {
                                    None => Ok(
                                        EventV::LayoutChange {
                                            window,
                                            layout,
                                            visible_layout: Some(v),
                                            raw_flags: None,
                                        },
                                    ),
                                    Some(f) => match verbatim_text(f) {
                                        Err(e) => Err(e),
                                        Ok(f) => Ok(
                                            EventV::LayoutChange {
                                                window,
                                                layout,
                                                visible_layout: Some(v),
                                                raw_flags: Some(f),
                                            },
                                        ),
                                    },
                                },
                            },
                        },
                    }
                }
            },
        },
    }
}

/// The event of a `%client-session-changed` line from what follows its name.
pub open spec fn client_session_event(r: Seq<u8>) -> Result<EventV, LineError> {
    match split_pair(r) {
        None => Err(LineError::Syntax),
        Some((client, r2)) => match split_pair(r2) {
            None => Err(LineError::Syntax),
            Some((sid, name)) => match id_of(SESSION_SIGIL, sid) {
                None => Err(LineError::Syntax),
                Some(session) => if client.len() == 0 {
                    Err(LineError::Syntax)
                } else {
                    match (quoted_text(client), quoted_text(name)) {
                        (Err(e), _) => Err(e),
                        (Ok(_), Err(e)) => Err(e),
                        (Ok(client_name), Ok(session_name)) => Ok(
                            EventV::ClientSessionChanged { client_name, session, session_name },
                        ),
                    }
                },
            },
        },
    }
}

/// The event of a line whose name is followed by a space and then by `r`.
pub open spec fn args_event(k: Keyword, r: Seq<u8>) -> Result<EventV, LineError> {
    match k {
        Keyword::Begin => match guard_of(r) {
            Some((timestamp, number, flags)) => Ok(EventV::Begin { timestamp, number, flags }),
            None => Err(LineError::Syntax),
        },
        Keyword::End => match guard_of(r) {
            Some((timestamp, number, flags)) => Ok(EventV::End { timestamp, number, flags }),
            None => Err(LineError::Syntax),
        },
        Keyword::Error => match guard_of(r) {
            Some((timestamp, number, flags)) => Ok(EventV::Error { timestamp, number, flags }),
            None => Err(LineError::Syntax),
        },
        Keyword::ClientDetached => if is_word(r) {
            match quoted_text(r) {
                Ok(client_name) => Ok(EventV::ClientDetached { client_name }),
                Err(e) => Err(e),
            }
        } else {
            Err(LineError::Syntax)
        },
        Keyword::ClientSessionChanged => client_session_event(r),
        Keyword::ConfigError => match quoted_text(r) {
            Ok(error) => Ok(EventV::ConfigError { error }),
            Err(e) => Err(e),
        },
        Keyword::Continue => match id_of(PANE_SIGIL, r) {
            Some(pane) => Ok(EventV::Continue { pane }),
            None => Err(LineError::Syntax),
        },
        Keyword::ExtendedOutput => match split_pair(r) {
            Some((p, t)) => match id_of(PANE_SIGIL, p) {
                Some(pane) => match quoted_bytes(t) {
                    Ok(text) => Ok(EventV::ExtendedOutput { pane, text }),
                    Err(e) => Err(e),
                },
                None => Err(LineError::Syntax),
            },
            None => Err(LineError::Syntax),
        },
        Keyword::Exit => match verbatim_text(r) {
            Ok(reason) => Ok(EventV::Exit { reason: Some(reason) }),
            Err(e) => Err(e),
        },
        Keyword::LayoutChange => layout_change_event(r),
        Keyword::Message => match quoted_text(r) {
            Ok(message) => Ok(EventV::Message { message }),
            Err(e) => Err(e),
        },
        Keyword::Output => match split_pair(r) {
            Some((p, t)) => match id_of(PANE_SIGIL, p) {
                Some(pane) => match quoted_bytes(t) {
                    Ok(text) => Ok(EventV::Output { pane, text }),
                    Err(e) => Err(e),
                },
                None => Err(LineError::Syntax),
            },
            None => Err(LineError::Syntax),
        },
        Keyword::PaneModeChanged => match id_of(PANE_SIGIL, r) {
            Some(pane) => Ok(EventV::PaneModeChanged { pane }),
            None => Err(LineError::Syntax),
        },
        Keyword::PasteBufferChanged => match quoted_text(r) {
            Ok(buffer) => Ok(EventV::PasteBufferChanged { buffer }),
            Err(e) => Err(e),
        },
        Keyword::PasteBufferDeleted => match quoted_text(r) {
            Ok(buffer) => Ok(EventV::PasteBufferDeleted { buffer }),
            Err(e) => Err(e),
        },
        Keyword::Pause => match id_of(PANE_SIGIL, r) {
            Some(pane) => Ok(EventV::Pause { pane }),
            None => Err(LineError::Syntax),
        },
        Keyword::SessionChanged => match split_pair(r) {
            Some((sid, n)) => match id_of(SESSION_SIGIL, sid) {
                Some(session) => if is_word(n) {
                    match quoted_text(n) {
                        Ok(name) => Ok(EventV::SessionChanged { session, name }),
                        Err(e) => Err(e),
                    }
                } else {
                    Err(LineError::Syntax)
                },
                None => Err(LineError::Syntax),
            },
            None => Err(LineError::Syntax),
        },
        Keyword::SessionRenamed => match quoted_text(r) {
            Ok(name) => Ok(EventV::SessionRenamed { name }),
            Err(e) => Err(e),
        },
        Keyword::SessionWindowChanged => match split_pair(r) {
            Some((sid, wid)) => match (id_of(SESSION_SIGIL, sid), id_of(WINDOW_SIGIL, wid)) {
                (Some(session), Some(window)) => Ok(
                    EventV::SessionWindowChanged { session, window },
                ),
                _ => Err(LineError::Syntax),
            },
            None => Err(LineError::Syntax),
        },
        Keyword::SessionsChanged => Err(LineError::Syntax),
        Keyword::SubscriptionChanged => Ok(EventV::SubscriptionChanged),
        Keyword::UnlinkedWindowAdd => match id_of(WINDOW_SIGIL, r) {
            Some(window) => Ok(EventV::UnlinkedWindowAdd { window }),
            None => Err(LineError::Syntax),
        },
        Keyword::UnlinkedWindowClose => match id_of(WINDOW_SIGIL, r) {
            Some(window) => Ok(EventV::UnlinkedWindowClose { window }),
            None => Err(LineError::Syntax),
        },
        Keyword::UnlinkedWindowRenamed => match id_of(WINDOW_SIGIL, r) {
            Some(window) => Ok(EventV::UnlinkedWindowRenamed { window }),
            None => Err(LineError::Syntax),
        },
        Keyword::WindowAdd => match id_of(WINDOW_SIGIL, r) {
            Some(window) => Ok(EventV::WindowAdd { window }),
            None => Err(LineError::Syntax),
        },
        Keyword::WindowClose => match id_of(WINDOW_SIGIL, r) {
            Some(window) => Ok(EventV::WindowClose { window }),
            None => Err(LineError::Syntax),
        },
        Keyword::WindowPaneChanged => match split_pair(r) {
            Some((wid, pid)) => match (id_of(WINDOW_SIGIL, wid), id_of(PANE_SIGIL, pid)) {
                (Some(window), Some(pane)) => Ok(EventV::WindowPaneChanged { window, pane }),
                _ => Err(LineError::Syntax),
            },
            None => Err(LineError::Syntax),
        },
        Keyword::WindowRenamed => match split_pair(r) {
            Some((wid, n)) => match id_of(WINDOW_SIGIL, wid) {
                Some(window) => match quoted_text(n) {
                    Ok(name) => Ok(EventV::WindowRenamed { window, name }),
                    Err(e) => Err(e),
                },
                None => Err(LineError::Syntax),
            },
            None => Err(LineError::Syntax),
        },
    }
}

/// The event that one line (without its line feed) stands for.
#[verifier::opaque]
pub open spec fn line_event(line: Seq<u8>) -> Result<EventV, LineError> {
    match keyword_of(first_word(line)) {
        None => Err(LineError::Syntax),
        Some(k) => match after_word(line) {
            None => bare_event(k),
            Some(r) => args_event(k, r),
        },
    }
}

/// `r` is the exec counterpart of the event result `e`.
pub open spec fn event_result(r: Result<Event, LineError>, e: Result<EventV, LineError>) -> bool {
    match e {
        Ok(v) => r matches Ok(x) && x@ == v,
        Err(err) => r == Err::<Event, LineError>(err),
    }
}

fn layout_change_exec(r: &[u8]) -> (res: Result<Event, LineError>)
    ensures
        event_result(res, layout_change_event(r@)),
{
    let (w, r2) = match split_pair_exec(r) {
        Some(p) => p,
        None => return Err(LineError::Syntax),
    };
    let window = match parse_id(WINDOW_SIGIL, w) {
        Some(x) => x,
        None => return Err(LineError::Syntax),
    };
    let layout = first_word_exec(r2);
    let (visible, flags) = match split_pair_exec(r2) {
        Some((_, r3)) => {
            match split_pair_exec(r3) {
                Some((v, f)) => (Some(v), Some(f)),
                None => {
                    assert(first_word(r3@) =~= r3@);
                    (Some(r3), None)
                },
            }
        },
        None => (None, None),
    };
    if layout.len() == 0 {
        return Err(LineError::Syntax);
    }
    match visible {
        Some(v) => if v.len() == 0 {
            return Err(LineError::Syntax);
        },
        None => {},
    }
    match flags {
        Some(f) => if !is_word_exec(f) {
            return Err(LineError::Syntax);
        },
        None => {},
    }
    let layout = quoted_exec(layout)?;
    let visible_layout = match visible {
        Some(v) => Some(verbatim_exec(v)?),
        None => None,
    };
    let raw_flags = match flags {
        Some(f) => Some(verbatim_exec(f)?),
        None => None,
    };
    Ok(Event::LayoutChange { window, layout, visible_layout, raw_flags })
}

fn client_session_exec(r: &[u8]) -> (res: Result<Event, LineError>)
    ensures
        event_result(res, client_session_event(r@)),
{
    let (client, r2) = match split_pair_exec(r) {
        Some(p) => p,
        None => return Err(LineError::Syntax),
    };
    let (sid, name) = match split_pair_exec(r2) {
        Some(p) => p,
        None => return Err(LineError::Syntax),
    };
    let session = match parse_id(SESSION_SIGIL, sid) {
        Some(x) => x,
        None => return Err(LineError::Syntax),
    };
    if client.len() == 0 {
        return Err(LineError::Syntax);
    }
    let client_name = quoted_exec(client)?;
    let session_name = quoted_exec(name)?;
    Ok(Event::ClientSessionChanged { client_name, session, session_name })
}

fn pane_output_exec(r: &[u8]) -> (res: Result<(u64, Vec<u8>), LineError>)
    ensures
        match split_pair(r@) {
            Some((p, t)) => match id_of(PANE_SIGIL, p) {
                Some(pane) => match quoted_bytes(t) {
                    Ok(text) => res matches Ok(x) && x.0 == pane && x.1@ == text,
                    Err(e) => res == Err::<(u64, Vec<u8>), LineError>(e),
                },
                None => res == Err::<(u64, Vec<u8>), LineError>(LineError::Syntax),
            },
            None => res == Err::<(u64, Vec<u8>), LineError>(LineError::Syntax),
        },
{
    let (p, t) = match split_pair_exec(r) {
        Some(x) => x,
        None => return Err(LineError::Syntax),
    };
    let pane = match parse_id(PANE_SIGIL, p) {
        Some(x) => x,
        None => return Err(LineError::Syntax),
    };
    let text = quoted_bytes_exec(t)?;
    Ok((pane, text))
}

fn args_exec(k: Keyword, r: &[u8]) -> (res: Result<Event, LineError>)
    ensures
        event_result(res, args_event(k, r@)),
{
    match k {
        Keyword::Begin => match parse_guard(r) {
            Some((timestamp, number, flags)) => Ok(Event::Begin { timestamp, number, flags }),
            None => Err(LineError::Syntax),
        },
        Keyword::End => match parse_guard(r) {
            Some((timestamp, number, flags)) => Ok(Event::End { timestamp, number, flags }),
            None => Err(LineError::Syntax),
        },
        Keyword::Error => match parse_guard(r) {
            Some((timestamp, number, flags)) => Ok(Event::Error { timestamp, number, flags }),
            None => Err(LineError::Syntax),
        },
        Keyword::ClientDetached => {
            if !is_word_exec(r) {
                return Err(LineError::Syntax);
            }
            let client_name = quoted_exec(r)?;
            Ok(Event::ClientDetached { client_name })
        },
        Keyword::ClientSessionChanged => client_session_exec(r),
        Keyword::ConfigError => {
            let error = quoted_exec(r)?;
            Ok(Event::ConfigError { error })
        },
        Keyword::Continue => match parse_id(PANE_SIGIL, r) {
            Some(pane) => Ok(Event::Continue { pane }),
            None => Err(LineError::Syntax),
        },
        Keyword::ExtendedOutput => {
            let (pane, text) = pane_output_exec(r)?;
            Ok(Event::ExtendedOutput { pane, text })
        },
        Keyword::Exit => {
            let reason = verbatim_exec(r)?;
            Ok(Event::Exit { reason: Some(reason) })
        },
        Keyword::LayoutChange => layout_change_exec(r),
        Keyword::Message => {
            let message = quoted_exec(r)?;
            Ok(Event::Message { message })
        },
        Keyword::Output => {
            let (pane, text) = pane_output_exec(r)?;
            Ok(Event::Output { pane, text })
        },
        Keyword::PaneModeChanged => match parse_id(PANE_SIGIL, r) {
            Some(pane) => Ok(Event::PaneModeChanged { pane }),
            None => Err(LineError::Syntax),
        },
        Keyword::PasteBufferChanged => {
            let buffer = quoted_exec(r)?;
            Ok(Event::PasteBufferChanged { buffer })
        },
        Keyword::PasteBufferDeleted => {
            let buffer = quoted_exec(r)?;
            Ok(Event::PasteBufferDeleted { buffer })
        },
        Keyword::Pause => match parse_id(PANE_SIGIL, r) {
            Some(pane) => Ok(Event::Pause { pane }),
            None => Err(LineError::Syntax),
        },
        Keyword::SessionChanged => {
            let (sid, n) = match split_pair_exec(r) {
                Some(x) => x,
                None => return Err(LineError::Syntax),
            };
            let session = match parse_id(SESSION_SIGIL, sid) {
                Some(x) => x,
                None => return Err(LineError::Syntax),
            };
            if !is_word_exec(n) {
                return Err(LineError::Syntax);
            }
            let name = quoted_exec(n)?;
            Ok(Event::SessionChanged { session, name })
        },
        Keyword::SessionRenamed => {
            let name = quoted_exec(r)?;
            Ok(Event::SessionRenamed { name })
        },
        Keyword::SessionWindowChanged => {
            let (sid, wid) = match split_pair_exec(r) {
                Some(x) => x,
                None => return Err(LineError::Syntax),
            };
            match (parse_id(SESSION_SIGIL, sid), parse_id(WINDOW_SIGIL, wid)) {
                (Some(session), Some(window)) => Ok(Event::SessionWindowChanged { session, window }),
                _ => Err(LineError::Syntax),
            }
        },
        Keyword::SessionsChanged => Err(LineError::Syntax),
        Keyword::SubscriptionChanged => Ok(Event::SubscriptionChanged),
        Keyword::UnlinkedWindowAdd => match parse_id(WINDOW_SIGIL, r) {
            Some(window) => Ok(Event::UnlinkedWindowAdd { window }),
            None => Err(LineError::Syntax),
        },
        Keyword::UnlinkedWindowClose => match parse_id(WINDOW_SIGIL, r) {
            Some(window) => Ok(Event::UnlinkedWindowClose { window }),
            None => Err(LineError::Syntax),
        },
        Keyword::UnlinkedWindowRenamed => match parse_id(WINDOW_SIGIL, r) {
            Some(window) => Ok(Event::UnlinkedWindowRenamed { window }),
            None => Err(LineError::Syntax),
        },
        Keyword::WindowAdd => match parse_id(WINDOW_SIGIL, r) {
            Some(window) => Ok(Event::WindowAdd { window }),
            None => Err(LineError::Syntax),
        },
        Keyword::WindowClose => match parse_id(WINDOW_SIGIL, r) {
            Some(window) => Ok(Event::WindowClose { window }),
            None => Err(LineError::Syntax),
        },
        Keyword::WindowPaneChanged => {
            let (wid, pid) = match split_pair_exec(r) {
                Some(x) => x,
                None => return Err(LineError::Syntax),
            };
            match (parse_id(WINDOW_SIGIL, wid), parse_id(PANE_SIGIL, pid)) {
                (Some(window), Some(pane)) => Ok(Event::WindowPaneChanged { window, pane }),
                _ => Err(LineError::Syntax),
            }
        },
        Keyword::WindowRenamed => {
            let (wid, n) = match split_pair_exec(r) {
                Some(x) => x,
                None => return Err(LineError::Syntax),
            };
            let window = match parse_id(WINDOW_SIGIL, wid) {
                Some(x) => x,
                None => return Err(LineError::Syntax),
            };
            let name = quoted_exec(n)?;
            Ok(Event::WindowRenamed { window, name })
        },
    }
}

/// Parses one line of the protocol, given without its line feed.
pub fn parse_line(line: &[u8]) -> (r: Result<Event, LineError>)
    ensures
        event_result(r, line_event(line@)),
{
    reveal(line_event);
    let k = match keyword_exec(first_word_exec(line)) {
        Some(k) => k,
        None => return Err(LineError::Syntax),
    };
    match split_pair_exec(line) {
        None => match k {
            Keyword::Exit => Ok(Event::Exit { reason: None }),
            Keyword::SessionsChanged => Ok(Event::SessionsChanged),
            Keyword::SubscriptionChanged => Ok(Event::SubscriptionChanged),
            _ => Err(LineError::Syntax),
        },
        Some((_, r)) => args_exec(k, r),
    }
}


/// A single line never stands for a guarded block: those are built by the feeder.
pub proof fn lemma_line_event_not_guarded(line: Seq<u8>)
    ensures
        !(line_event(line) matches Ok(EventV::Guarded(_))),
{
    reveal(line_event);
}


/// Where `s` is `a`, a space and `b`, and `a` holds no space, it splits there.
proof fn lemma_split_at_space(a: Seq<u8>, b: Seq<u8>)
    requires
        forall|j: int| 0 <= j < a.len() ==> a[j] != SPACE,
    ensures
        split_pair(a + seq![SPACE] + b) == Some((a, b)),
{
    let s = a + seq![SPACE] + b;
    assert forall|j: int| 0 <= j < a.len() implies s[j] != SPACE by {
        assert(s[j] == a[j]);
    }
    lemma_head_len(s, a.len() as int);
    assert(s.subrange(0, a.len() as int) =~= a);
    assert(s.subrange(a.len() as int + 1, s.len() as int) =~= b);
}

/// The output and guard notification names are recognised and hold no space.
proof fn lemma_output_keywords(k: Keyword)
    requires
        k == Keyword::Output || k == Keyword::ExtendedOutput || k == Keyword::Begin || k
            == Keyword::End || k == Keyword::Error,
    ensures
        keyword_of(keyword_text(k)) == Some(k),
        forall|j: int| 0 <= j < keyword_text(k).len() ==> keyword_text(k)[j] != SPACE,
{
}

/// A pane payload reaches the event byte for byte: whatever bytes `text` are
/// (UTF-8 or not) and whichever `vis` form tmux chose for each, an `%output` or
/// `%extended-output` line carrying them yields exactly `text`.
#[verifier::rlimit(60)]
pub proof fn lemma_output_payload_exact(
    extended: bool,
    pane_token: Seq<u8>,
    pane: u64,
    text: Seq<u8>,
    chunks: Seq<Seq<u8>>,
)
    requires
        id_of(PANE_SIGIL, pane_token) == Some(pane),
        chunks.len() == text.len(),
        forall|i: int| 0 <= i < text.len() ==> is_vis_of(#[trigger] chunks[i], text[i]),
    ensures
        ({
            let k = if extended {
                Keyword::ExtendedOutput
            } else {
                Keyword::Output
            };
            let line = keyword_text(k) + seq![SPACE] + pane_token + seq![SPACE] + join_chunks(
                chunks,
            );
            line_event(line) == if extended {
                Ok::<EventV, LineError>(EventV::ExtendedOutput { pane, text })
            } else {
                Ok::<EventV, LineError>(EventV::Output { pane, text })
            }
        }),
{
    reveal(line_event);
    let k = if extended {
        Keyword::ExtendedOutput
    } else {
        Keyword::Output
    };
    let kw = keyword_text(k);
    let payload = join_chunks(chunks);
    let rest = pane_token + seq![SPACE] + payload;
    lemma_output_keywords(k);
    assert forall|j: int| 0 <= j < pane_token.len() implies pane_token[j] != SPACE by {
        if j > 0 {
            assert(pane_token.drop_first()[j - 1] == pane_token[j]);
        }
    }
    lemma_split_at_space(pane_token, payload);
    lemma_split_at_space(kw, rest);
    assert(kw + seq![SPACE] + rest =~= kw + seq![SPACE] + pane_token + seq![SPACE] + payload);
    lemma_unvis_inverts_any_vis(text, chunks);
    lemma_output_keywords(k);
}


/// A guard line as tmux writes it: the name and three decimal numbers.
pub open spec fn guard_line(k: Keyword, timestamp: i64, number: u64, flags: i64) -> Seq<u8> {
    keyword_text(k) + seq![SPACE] + decimal(timestamp as nat) + seq![SPACE] + decimal(
        number as nat,
    ) + seq![SPACE] + decimal(flags as nat)
}

/// The event of a guard line written with non-negative numbers.
pub open spec fn guard_event(k: Keyword, timestamp: i64, number: u64, flags: i64) -> EventV {
    match k {
        Keyword::Begin => EventV::Begin { timestamp, number, flags },
        Keyword::End => EventV::End { timestamp, number, flags },
        _ => EventV::Error { timestamp, number, flags },
    }
}

/// A formatted guard line parses back to its three numbers, and holds neither a
/// line feed nor a trailing carriage return.
pub proof fn lemma_guard_line(k: Keyword, timestamp: i64, number: u64, flags: i64)
    requires
        k == Keyword::Begin || k == Keyword::End || k == Keyword::Error,
        timestamp >= 0,
        flags >= 0,
    ensures
        line_event(guard_line(k, timestamp, number, flags)) == Ok::<EventV, LineError>(
            guard_event(k, timestamp, number, flags),
        ),
        forall|j: int|
            0 <= j < guard_line(k, timestamp, number, flags).len() ==> #[trigger] guard_line(
                k,
                timestamp,
                number,
                flags,
            )[j] != 10,
        guard_line(k, timestamp, number, flags).len() > 0,
        guard_line(k, timestamp, number, flags).last() != 13,
{
    reveal(line_event);
    let kw = keyword_text(k);
    let dt = decimal(timestamp as nat);
    let dn = decimal(number as nat);
    let df = decimal(flags as nat);
    lemma_decimal(timestamp as nat);
    lemma_decimal(number as nat);
    lemma_decimal(flags as nat);
    lemma_output_keywords(k);
    let r2 = dn + seq![SPACE] + df;
    let r = dt + seq![SPACE] + r2;
    lemma_split_at_space(dn, df);
    lemma_split_at_space(dt, r2);
    lemma_split_at_space(kw, r);
    let line = guard_line(k, timestamp, number, flags);
    assert(line =~= kw + seq![SPACE] + r);
    assert(line.last() == df.last());
    assert forall|j: int| 0 <= j < line.len() implies #[trigger] line[j] != 10 by {
        let a = kw.len() as int;
        let b = a + 1 + dt.len();
        let c = b + 1 + dn.len();
        if j < a {
            assert(line[j] == kw[j]);
        } else if a < j < b {
            assert(line[j] == dt[j - a - 1]);
        } else if b < j < c {
            assert(line[j] == dn[j - b - 1]);
        } else if c < j {
            assert(line[j] == df[j - c - 1]);
        }
    }
}

} // verus!
