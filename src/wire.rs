//! Reading a planner's JSON reply into an action plan.
use vstd::prelude::*;
use crate::geometry::{Vec2, COORD_LIMIT};
use vstd::string::{StrSliceExecFns, StringExecFns};
use crate::intent::{Action, ActionPlan, Intent, IntentStatus};

verus! {

/// A JSON document as plain values. A number keeps its decimal text.
#[derive(Debug)]
pub enum Json {
    Null,
    Bool(bool),
    Number(String),
    Text(String),
    Array(Vec<Json>),
    Object(Vec<(String, Json)>),
}

#[verifier::external_type_specification]
#[verifier::external_body]
pub struct ExValue(serde_json::Value);

#[verifier::external_type_specification]
#[verifier::external_body]
pub struct ExJsonError(serde_json::Error);

/// The document a text holds, if it is valid JSON.
pub uninterp spec fn json_of(text: Seq<char>) -> Option<Json>;

/// Relies on serde_json::from_str: whether a text is valid JSON and which
/// document it holds depend on the text alone.
#[verifier::external_body]
fn parse_document(text: &str) -> (r: Result<Json, serde_json::Error>)
    ensures
        r is Ok <==> json_of(text@) is Some,
        r matches Ok(d) ==> json_of(text@) == Some(d),
{
    serde_json::from_str::<serde_json::Value>(text).map(|v| json_from_value(&v))
}

/// Relies on serde_json::Value's variants, and on serde_json::Number's
/// Display for the text of a number: a variant-for-variant copy.
#[verifier::external_body]
fn json_from_value(v: &serde_json::Value) -> (r: Json) {
    match v {
        serde_json::Value::Null => Json::Null,
        serde_json::Value::Bool(b) => Json::Bool(*b),
        serde_json::Value::Number(n) => Json::Number(n.to_string()),
        serde_json::Value::String(s) => Json::Text(s.clone()),
        serde_json::Value::Array(a) => Json::Array(a.iter().map(json_from_value).collect()),
        serde_json::Value::Object(m) => Json::Object(m.iter().map(|(k, x)| (k.clone(), json_from_value(x))).collect()),
    }
}

/// Relies on serde_json::Error's Display: a description of the failure.
#[verifier::external_body]
fn json_error_text(e: &serde_json::Error) -> (r: String) {
    e.to_string()
}

/// The two characters are equal up to ASCII case.
pub open spec fn char_eq_ci(c: char, d: char) -> bool {
    c == d
        || ('A' <= c <= 'Z' && d as u32 == c as u32 + 32)
        || ('A' <= d <= 'Z' && c as u32 == d as u32 + 32)
}

/// The two texts are equal up to ASCII case.
pub open spec fn text_eq_ci(a: Seq<char>, b: Seq<char>) -> bool {
    a.len() == b.len() && forall|i: int| 0 <= i < a.len() ==> char_eq_ci(#[trigger] a[i], b[i])
}

fn chars_eq_ci(c: char, d: char) -> (r: bool)
    ensures
        r == char_eq_ci(c, d),
{
    c == d
        || ('A' <= c && c <= 'Z' && d as u32 == c as u32 + 32)
        || ('A' <= d && d <= 'Z' && c as u32 == d as u32 + 32)
}

/// Whether `a` and `b` are equal up to ASCII case.
pub fn text_equals_ignore_case(a: &str, b: &str) -> (r: bool)
    ensures
        r == text_eq_ci(a@, b@),
{
    let n = a.unicode_len();
    if n != b.unicode_len() {
        return false;
    }
    let mut i: usize = 0;
    while i < n
        invariant
            n == a@.len(),
            n == b@.len(),
            i <= n,
            forall|j: int| 0 <= j < i ==> char_eq_ci(#[trigger] a@[j], b@[j]),
        decreases n - i,
    {
        if !chars_eq_ci(a.get_char(i), b.get_char(i)) {
            return false;
        }
        i = i + 1;
    }
    true
}

/// Whether `a` and `b` hold the same characters.
pub fn text_equals(a: &str, b: &str) -> (r: bool)
    ensures
        r == (a@ == b@),
{
    let n = a.unicode_len();
    if n != b.unicode_len() {
        return false;
    }
    let mut i: usize = 0;
    while i < n
        invariant
            n == a@.len(),
            n == b@.len(),
            i <= n,
            forall|j: int| 0 <= j < i ==> #[trigger] a@[j] == b@[j],
        decreases n - i,
    {
        if a.get_char(i) != b.get_char(i) {
            return false;
        }
        i = i + 1;
    }
    proof { assert(a@ =~= b@); }
    true
}

/// Status named on the wire: "new" or "continue", in any ASCII case.
pub open spec fn status_of(s: Seq<char>) -> Option<IntentStatus> {
    if text_eq_ci(s, "new"@) {
        Some(IntentStatus::New)
    } else if text_eq_ci(s, "continue"@) {
        Some(IntentStatus::Continue)
    } else {
        None
    }
}

/// Reads a wire status; `None` for anything but "new" or "continue".
pub fn parse_status(s: &str) -> (r: Option<IntentStatus>)
    ensures
        r == status_of(s@),
{
    if text_equals_ignore_case(s, "new") {
        Some(IntentStatus::New)
    } else if text_equals_ignore_case(s, "continue") {
        Some(IntentStatus::Continue)
    } else {
        None
    }
}

pub open spec fn is_digit(c: char) -> bool {
    '0' <= c <= '9'
}

pub open spec fn digit_value(c: char) -> int {
    c as int - '0' as int
}

pub open spec fn all_digits(s: Seq<char>) -> bool {
    forall|i: int| 0 <= i < s.len() ==> is_digit(#[trigger] s[i])
}

/// Value of a run of decimal digits.
pub open spec fn digits_value(s: Seq<char>) -> int
    decreases s.len(),
{
    if s.len() == 0 { 0 } else { digits_value(s.drop_last()) * 10 + digit_value(s.last()) }
}

/// Thousandths given by the first three digits of a fraction, missing
/// digits read as zero.
pub open spec fn frac_milli(f: Seq<char>) -> int {
    let d = |i: int| if i < f.len() { digit_value(f[i]) } else { 0 };
    100 * d(0) + 10 * d(1) + d(2)
}

/// Number of leading digits.
pub open spec fn lead_digits(s: Seq<char>) -> nat
    decreases s.len(),
{
    if s.len() > 0 && is_digit(s[0]) { 1 + lead_digits(s.drop_first()) } else { 0 }
}

/// End of the mantissa `d` or `d.ddd` of an exponent form.
pub open spec fn mantissa_end(s: Seq<char>) -> int {
    if s.len() > 1 && s[1] == '.' { 2 + lead_digits(s.subrange(2, s.len() as int)) as int } else { 1 }
}

/// `d[.ddd]e-kk`, one digit before the point and an exponent of at least
/// four: a magnitude below one thousandth, the only exponent form serde_json
/// writes for a value inside the coordinate range.
#[verifier::opaque]
pub open spec fn tiny_exponent_form(s: Seq<char>) -> bool {
    let m = mantissa_end(s);
    &&& lead_digits(s) == 1
    &&& (s.len() > 1 && s[1] == '.' ==> m > 2)
    &&& m + 2 < s.len()
    &&& s[m] == 'e'
    &&& s[m + 1] == '-'
    &&& all_digits(s.subrange(m + 2, s.len() as int))
    &&& digits_value(s.subrange(m + 2, s.len() as int)) >= 4
}

/// Magnitude in milli-units of `digits` or `digits.digits`, fraction digits
/// past the third dropped; a tiny exponent form truncates to zero.
pub open spec fn magnitude_milli(s: Seq<char>) -> Option<int> {
    let n = lead_digits(s) as int;
    let whole = digits_value(s.subrange(0, n)) * 1000;
    if tiny_exponent_form(s) {
        Some(0)
    } else if n == 0 {
        None
    } else if n == s.len() {
        Some(whole)
    } else if s[n] == '.' && s.len() > n + 1 && all_digits(s.subrange(n + 1, s.len() as int)) {
        Some(whole + frac_milli(s.subrange(n + 1, s.len() as int)))
    } else {
        None
    }
}

/// A decimal coordinate in milli-units, truncated toward zero; `None` for
/// other text or a value beyond the coordinate range.
pub open spec fn milli_of(s: Seq<char>) -> Option<int> {
    let neg = s.len() > 0 && s[0] == '-';
    let body = if neg { s.drop_first() } else { s };
    match magnitude_milli(body) {
        Some(m) => if m <= COORD_LIMIT { Some(if neg { -m } else { m }) } else { None },
        None => None,
    }
}

proof fn lemma_lead_digits(s: Seq<char>)
    ensures
        lead_digits(s) <= s.len(),
        forall|i: int| 0 <= i < lead_digits(s) ==> is_digit(#[trigger] s[i]),
        lead_digits(s) < s.len() ==> !is_digit(s[lead_digits(s) as int]),
    decreases s.len(),
{
    if s.len() > 0 && is_digit(s[0]) {
        lemma_lead_digits(s.drop_first());
        assert forall|i: int| 0 < i < s.len() implies #[trigger] s[i] == s.drop_first()[i - 1] by {}
    }
}

proof fn lemma_lead_digits_exact(s: Seq<char>, n: int)
    requires
        0 <= n <= s.len(),
        forall|i: int| 0 <= i < n ==> is_digit(#[trigger] s[i]),
        n < s.len() ==> !is_digit(s[n]),
    ensures
        lead_digits(s) == n,
    decreases s.len(),
{
    if n > 0 {
        assert forall|i: int| 0 <= i < n - 1 implies is_digit(#[trigger] s.drop_first()[i]) by {
            assert(s.drop_first()[i] == s[i + 1]);
        }
        if n - 1 < s.drop_first().len() {
            assert(s.drop_first()[n - 1] == s[n]);
        }
        lemma_lead_digits_exact(s.drop_first(), n - 1);
    }
}

proof fn lemma_digits_monotone(s: Seq<char>, k: int)
    requires
        0 <= k <= s.len(),
        all_digits(s),
    ensures
        0 <= digits_value(s.subrange(0, k)) <= digits_value(s),
    decreases s.len() - k,
{
    if k < s.len() {
        lemma_digits_monotone(s, k + 1);
        let p = s.subrange(0, k + 1);
        assert(p.drop_last() == s.subrange(0, k));
        assert(is_digit(p.last()));
    } else {
        assert(s.subrange(0, k) == s);
        lemma_digits_nonneg(s);
    }
}

proof fn lemma_digits_nonneg(s: Seq<char>)
    requires
        all_digits(s),
    ensures
        digits_value(s) >= 0,
    decreases s.len(),
{
    if s.len() > 0 {
        assert(s.drop_last() =~= s.subrange(0, s.len() - 1));
        assert forall|i: int| 0 <= i < s.drop_last().len() implies is_digit(#[trigger] s.drop_last()[i]) by {
            assert(s.drop_last()[i] == s[i]);
        }
        lemma_digits_nonneg(s.drop_last());
        assert(is_digit(s[s.len() - 1]));
    }
}

/// Whether the text from `start` on is a tiny exponent form.
fn tiny_exponent_at(text: &str, start: usize) -> (r: bool)
    requires
        start <= text@.len(),
    ensures
        r == tiny_exponent_form(text@.subrange(start as int, text@.len() as int)),
{
    reveal(tiny_exponent_form);
    let n = text.unicode_len();
    let ghost s = text@.subrange(start as int, n as int);
    if n - start < 2 || !is_digit_char(text.get_char(start)) {
        proof {
            lemma_lead_digits(s);
            if start < n && !is_digit(text@[start as int]) {
                assert(s[0] == text@[start as int]);
            }
        }
        return false;
    }
    if is_digit_char(text.get_char(start + 1)) {
        proof {
            assert(s[0] == text@[start as int] && s[1] == text@[start + 1]);
            lemma_lead_digits_prefix(s, 2);
        }
        return false;
    }
    proof {
        assert(s[0] == text@[start as int] && s[1] == text@[start + 1]);
        lemma_lead_digits_exact(s, 1);
    }
    let mut m: usize = start + 1;
    if text.get_char(start + 1) == '.' {
        let mut j: usize = start + 2;
        while j < n && is_digit_char(text.get_char(j))
            invariant
                n == text@.len(),
                start + 2 <= j <= n,
                forall|q: int| start + 2 <= q < j ==> is_digit(#[trigger] text@[q]),
            decreases n - j,
        {
            j = j + 1;
        }
        proof {
            let f = s.subrange(2, s.len() as int);
            assert forall|q: int| 0 <= q < j - start - 2 implies is_digit(#[trigger] f[q]) by {
                assert(f[q] == text@[start + 2 + q]);
            }
            if j < n {
                assert(f[j - start - 2] == text@[j as int]);
            }
            lemma_lead_digits_exact(f, j - start - 2);
        }
        if j == start + 2 {
            return false;
        }
        m = j;
    }
    assert(mantissa_end(s) == m - start);
    if n - m <= 2 || text.get_char(m) != 'e' || text.get_char(m + 1) != '-' {
        proof {
            if m + 2 < n {
                assert(s[m - start] == text@[m as int] && s[m - start + 1] == text@[m + 1]);
            }
        }
        return false;
    }
    proof {
        assert(s[m - start] == text@[m as int] && s[m - start + 1] == text@[m + 1]);
    }
    let e0: usize = m + 2;
    let ghost ex = s.subrange(m - start + 2, s.len() as int);
    assert(ex =~= text@.subrange(e0 as int, n as int));
    let mut q: usize = e0;
    let mut sat: u64 = 0;
    assert(tiny_exponent_form(s) == (all_digits(ex) && digits_value(ex) >= 4));
    while q < n
        invariant
            tiny_exponent_form(s) == (all_digits(ex) && digits_value(ex) >= 4),
            s == text@.subrange(start as int, n as int),
            n == text@.len(),
            e0 <= q <= n,
            ex == text@.subrange(e0 as int, n as int),
            all_digits(text@.subrange(e0 as int, q as int)),
            digits_value(text@.subrange(e0 as int, q as int)) >= 0,
            sat as int == (if digits_value(text@.subrange(e0 as int, q as int)) < 4 { digits_value(text@.subrange(e0 as int, q as int)) } else { 4 }),
        decreases n - q,
    {
        let c = text.get_char(q);
        if !is_digit_char(c) {
            proof { assert(ex[q - e0] == c); }
            return false;
        }
        proof {
            let p = text@.subrange(e0 as int, q + 1);
            assert(p.drop_last() == text@.subrange(e0 as int, q as int));
            assert(p.last() == c);
            assert forall|i: int| 0 <= i < p.len() implies is_digit(#[trigger] p[i]) by {
                if i < p.len() - 1 {
                    assert(p[i] == text@.subrange(e0 as int, q as int)[i]);
                }
            }
        }
        let d = (c as u32 - '0' as u32) as u64;
        let v = sat * 10 + d;
        sat = if v < 4 { v } else { 4 };
        q = q + 1;
    }
    assert(text@.subrange(e0 as int, n as int) == ex);
    sat >= 4
}

/// Reads a decimal coordinate such as `34.5` or `-2` into milli-units.
#[verifier::rlimit(60)]
pub fn parse_milli(text: &str) -> (r: Option<i64>)
    ensures
        r matches Some(v) ==> milli_of(text@) == Some(v as int),
        r matches Some(v) ==> -COORD_LIMIT <= v <= COORD_LIMIT,
        r is None ==> milli_of(text@) is None,
{
    let s = Ghost(text@);
    let n = text.unicode_len();
    let neg = n > 0 && text.get_char(0) == '-';
    let start: usize = if neg { 1 } else { 0 };
    let ghost body = if neg { s@.drop_first() } else { s@ };
    assert(body =~= s@.subrange(start as int, n as int));
    if tiny_exponent_at(text, start) {
        return Some(0);
    }
    // whole part
    let mut i: usize = start;
    let mut whole: i64 = 0;
    while i < n && is_digit_char(text.get_char(i))
        invariant
            n == s@.len(),
            text@ == s@,
            start <= i <= n,
            body == s@.subrange(start as int, n as int),
            !tiny_exponent_form(body),
            neg == (s@.len() > 0 && s@[0] == '-'),
            body == (if neg { s@.drop_first() } else { s@ }),
            forall|j: int| start <= j < i ==> is_digit(#[trigger] s@[j]),
            whole == digits_value(s@.subrange(start as int, i as int)),
            0 <= whole <= 100_000,
        decreases n - i,
    {
        let c = text.get_char(i);
        proof {
            let p = s@.subrange(start as int, i + 1);
            assert(p.drop_last() == s@.subrange(start as int, i as int));
            assert(p.last() == c);
        }
        let nw = whole * 10 + (c as u32 - '0' as u32) as i64;
        if nw > 100_000 {
            proof {
                let run = lead_digits(body) as int;
                lemma_lead_digits(body);
                lemma_lead_digits_prefix(body, (i + 1 - start) as int);
                let ip = body.subrange(0, run);
                assert forall|j: int| 0 <= j < ip.len() implies is_digit(#[trigger] ip[j]) by {
                    assert(ip[j] == body[j]);
                }
                lemma_digits_monotone(ip, (i + 1 - start) as int);
                assert(ip.subrange(0, (i + 1 - start) as int) =~= s@.subrange(start as int, i + 1));
                assert(digits_value(ip) >= nw);
                if run < body.len() {
                    let f = body.subrange(run + 1, body.len() as int);
                    if all_digits(f) && f.len() > 0 {
                        assert(is_digit(f[0]));
                        if f.len() > 1 { assert(is_digit(f[1])); }
                        if f.len() > 2 { assert(is_digit(f[2])); }
                        assert(frac_milli(f) >= 0);
                    }
                }
                assert(magnitude_milli(body) is None || magnitude_milli(body)->0 > COORD_LIMIT);
                assert(milli_of(s@) is None);
            }
            return None;
        }
        whole = nw;
        i = i + 1;
    }
    let run: usize = i - start;
    proof {
        assert forall|j: int| 0 <= j < run implies is_digit(#[trigger] body[j]) by {
            assert(body[j] == s@[start + j]);
        }
        if i < n {
            assert(body[run as int] == s@[i as int]);
        }
        lemma_lead_digits_exact(body, run as int);
        assert(body.subrange(0, run as int) =~= s@.subrange(start as int, i as int));
    }
    if run == 0 {
        return None;
    }
    let mut magnitude: i64 = whole * 1000;
    if i < n {
        if text.get_char(i) != '.' || i + 1 >= n {
            return None;
        }
        let mut j: usize = i + 1;
        let mut frac: i64 = 0;
        let mut place: i64 = 100;
        while j < n
            invariant
                n == s@.len(),
                text@ == s@,
                i + 1 <= j <= n,
                start <= i,
                run == i - start,
                body == s@.subrange(start as int, n as int),
                lead_digits(body) == run,
                !tiny_exponent_form(body),
                neg == (s@.len() > 0 && s@[0] == '-'),
                body == (if neg { s@.drop_first() } else { s@ }),
                forall|q: int| i + 1 <= q < j ==> is_digit(#[trigger] s@[q]),
                place as int == (if j - i - 1 == 0 { 100int } else if j - i - 1 == 1 { 10int } else if j - i - 1 == 2 { 1int } else { 0int }),
                frac == frac_milli(s@.subrange(i + 1, j as int)),
                0 <= frac <= 999,
            decreases n - j,
        {
            let c = text.get_char(j);
            if !is_digit_char(c) {
                proof {
                    let f = s@.subrange(i + 1, n as int);
                    assert(f[j - i - 1] == c);
                    assert(f =~= body.subrange(run + 1, body.len() as int));
                    assert(!all_digits(f));
                    assert(magnitude_milli(body) is None);
                    assert(milli_of(s@) is None);
                }
                return None;
            }
            frac = frac + place * (c as u32 - '0' as u32) as i64;
            place = place / 10;
            proof {
                assert(s@.subrange(i + 1, j + 1).len() == j + 1 - i - 1);
                assert forall|q: int| 0 <= q < j - i - 1 implies s@.subrange(i + 1, j + 1)[q] == #[trigger] s@.subrange(i + 1, j as int)[q] by {}
            }
            j = j + 1;
        }
        proof {
            let f = s@.subrange(i + 1, n as int);
            assert(f =~= body.subrange(run + 1, body.len() as int));
            assert forall|q: int| 0 <= q < f.len() implies is_digit(#[trigger] f[q]) by {
                assert(f[q] == s@[i + 1 + q]);
            }
            assert(body[run as int] == '.');
        }
        magnitude = magnitude + frac;
    }
    if magnitude > COORD_LIMIT {
        return None;
    }
    if neg { Some(-magnitude) } else { Some(magnitude) }
}

proof fn lemma_lead_digits_prefix(s: Seq<char>, k: int)
    requires
        0 <= k <= s.len(),
        forall|i: int| 0 <= i < k ==> is_digit(#[trigger] s[i]),
    ensures
        lead_digits(s) >= k,
    decreases k,
{
    if k > 0 {
        assert forall|i: int| 0 <= i < k - 1 implies is_digit(#[trigger] s.drop_first()[i]) by {
            assert(s.drop_first()[i] == s[i + 1]);
        }
        lemma_lead_digits_prefix(s.drop_first(), k - 1);
    }
}

/// The action a wire object describes, from its `type` and payload fields;
/// `None` for an unknown type or a missing required field.
pub open spec fn action_of(kind: Seq<char>, target: Option<Vec2>, target_id: Option<u64>, position: Option<Vec2>) -> Option<Action> {
    if kind == "AttackSpace"@ {
        match target { Some(t) => Some(Action::AttackSpace { target: t }), None => None }
    } else if kind == "MarkPlayer"@ {
        match target_id { Some(i) => Some(Action::MarkPlayer { target_id: i as u32 }), None => None }
    } else if kind == "FindPassOption"@ {
        Some(Action::FindPassOption)
    } else if kind == "HoldPosition"@ {
        Some(Action::HoldPosition)
    } else if kind == "Press"@ {
        match target { Some(t) => Some(Action::Press { target: t }), None => None }
    } else if kind == "MoveToBall"@ {
        Some(Action::MoveToBall)
    } else if kind == "ReturnToPosition"@ {
        match position { Some(p) => Some(Action::ReturnToPosition { position: p }), None => None }
    } else if kind == "BlockSpace"@ {
        match target { Some(t) => Some(Action::BlockSpace { target: t }), None => None }
    } else {
        None
    }
}

/// Builds an action from the fields of a wire object.
pub fn action_from_fields(kind: &str, target: Option<Vec2>, target_id: Option<u64>, position: Option<Vec2>) -> (r: Option<Action>)
    ensures
        r == action_of(kind@, target, target_id, position),
{
    if text_equals(kind, "AttackSpace") {
        match target { Some(t) => Some(Action::AttackSpace { target: t }), None => None }
    } else if text_equals(kind, "MarkPlayer") {
        match target_id { Some(i) => Some(Action::MarkPlayer { target_id: i as u32 }), None => None }
    } else if text_equals(kind, "FindPassOption") {
        Some(Action::FindPassOption)
    } else if text_equals(kind, "HoldPosition") {
        Some(Action::HoldPosition)
    } else if text_equals(kind, "Press") {
        match target { Some(t) => Some(Action::Press { target: t }), None => None }
    } else if text_equals(kind, "MoveToBall") {
        Some(Action::MoveToBall)
    } else if text_equals(kind, "ReturnToPosition") {
        match position { Some(p) => Some(Action::ReturnToPosition { position: p }), None => None }
    } else if text_equals(kind, "BlockSpace") {
        match target { Some(t) => Some(Action::BlockSpace { target: t }), None => None }
    } else {
        None
    }
}

/// The intent one wire entry describes, or the message of its fault. The
/// action counts only for a New intent.
pub open spec fn intent_of(player_id: Option<u64>, status: Option<Seq<char>>, action: Option<Action>, at: u64) -> Result<Intent, Seq<char>> {
    match player_id {
        None => Err("Missing player_id"@),
        Some(id) => match status {
            None => Err("Missing status"@),
            Some(s) => match status_of(s) {
                None => Err("Invalid status: "@ + s),
                Some(st) => Ok(Intent {
                    player_id: id as u32,
                    status: st,
                    action: if st == IntentStatus::New { action } else { None },
                    created_at_ms: at,
                    duration_ms: None,
                }),
            },
        },
    }
}

pub open spec fn text_view(t: Option<&str>) -> Option<Seq<char>> {
    match t {
        Some(s) => Some(s@),
        None => None,
    }
}

fn message(text: &str) -> (r: String)
    ensures
        r@ == text@,
{
    String::from_str(text)
}

/// Builds one intent from the fields of a wire entry.
pub fn build_intent(player_id: Option<u64>, status: Option<&str>, action: Option<Action>, generated_at_ms: u64) -> (r: Result<Intent, String>)
    ensures
        match r {
            Ok(i) => intent_of(player_id, text_view(status), action, generated_at_ms) == Ok::<Intent, Seq<char>>(i),
            Err(e) => intent_of(player_id, text_view(status), action, generated_at_ms) == Err::<Intent, Seq<char>>(e@),
        },
{
    let id = match player_id {
        Some(id) => id,
        None => return Err(message("Missing player_id")),
    };
    let text = match status {
        Some(t) => t,
        None => return Err(message("Missing status")),
    };
    match parse_status(text) {
        None => {
            let mut e = message("Invalid status: ");
            e.append(text);
            Err(e)
        },
        Some(st) => {
            let kept = match st {
                IntentStatus::New => action,
                _ => None,
            };
            Ok(Intent::new(id as u32, st, kept, generated_at_ms))
        },
    }
}

/// The action's spatial payload, if any, lies in the coordinate range.
pub open spec fn action_in_range(a: Action) -> bool {
    match a {
        Action::AttackSpace { target } => target.wf(),
        Action::Press { target } => target.wf(),
        Action::BlockSpace { target } => target.wf(),
        Action::ReturnToPosition { position } => position.wf(),
        _ => true,
    }
}

/// What holds of every intent read from the wire.
pub open spec fn wire_intent(i: Intent, at: u64) -> bool {
    &&& i.created_at_ms == at
    &&& i.duration_ms is None
    &&& i.status != IntentStatus::Idle
    &&& (i.status == IntentStatus::Continue ==> i.action is None)
    &&& (i.action matches Some(a) ==> action_in_range(a))
}

/// The value of the first member named `key`.
pub open spec fn first_member(ms: Seq<(String, Json)>, key: Seq<char>) -> Option<Json>
    decreases ms.len(),
{
    if ms.len() == 0 {
        None
    } else if ms[0].0@ == key {
        Some(ms[0].1)
    } else {
        first_member(ms.drop_first(), key)
    }
}

/// The member `key` of an object; `None` for a missing member or a non-object.
pub open spec fn member_of(doc: Json, key: Seq<char>) -> Option<Json> {
    match doc {
        Json::Object(ms) => first_member(ms@, key),
        _ => None,
    }
}

pub open spec fn deref_json(j: Option<&Json>) -> Option<Json> {
    match j {
        Some(x) => Some(*x),
        None => None,
    }
}

/// The contents of a string value.
pub open spec fn text_value(j: Option<Json>) -> Option<Seq<char>> {
    match j {
        Some(Json::Text(s)) => Some(s@),
        _ => None,
    }
}

/// A number written as plain decimal digits that fits `u64`.
pub open spec fn u64_of(s: Seq<char>) -> Option<u64> {
    if s.len() > 0 && all_digits(s) && digits_value(s) <= u64::MAX {
        Some(digits_value(s) as u64)
    } else {
        None
    }
}

/// A non-negative integer value that fits `u64`.
pub open spec fn u64_value(j: Option<Json>) -> Option<u64> {
    match j {
        Some(Json::Number(t)) => u64_of(t@),
        _ => None,
    }
}

/// A number value read as a coordinate in milli-units.
pub open spec fn milli_value(j: Option<Json>) -> Option<int> {
    match j {
        Some(Json::Number(t)) => milli_of(t@),
        _ => None,
    }
}

/// An `{"x": .., "y": ..}` value in milli-units.
pub open spec fn point_value(j: Option<Json>) -> Option<Vec2> {
    match j {
        Some(p) => match (milli_value(member_of(p, "x"@)), milli_value(member_of(p, "y"@))) {
            (Some(x), Some(y)) => Some(Vec2 { x: x as i64, y: y as i64 }),
            _ => None,
        },
        None => None,
    }
}

/// The action a wire action object describes.
pub open spec fn action_of_json(a: Json) -> Option<Action> {
    match text_value(member_of(a, "type"@)) {
        Some(k) => action_of(
            k,
            point_value(member_of(a, "target"@)),
            u64_value(member_of(a, "target_id"@)),
            point_value(member_of(a, "position"@)),
        ),
        None => None,
    }
}

/// The intent one entry of the `intents` array describes, or its fault.
pub open spec fn entry_of(e: Json, at: u64) -> Result<Intent, Seq<char>> {
    let action = match member_of(e, "action"@) {
        Some(a) => action_of_json(a),
        None => None,
    };
    intent_of(u64_value(member_of(e, "player_id"@)), text_value(member_of(e, "status"@)), action, at)
}

/// The intents of the entries, one for one and in order, or the fault of the
/// first entry that has one.
pub open spec fn entries_of(es: Seq<Json>, at: u64) -> Result<Seq<Intent>, Seq<char>>
    decreases es.len(),
{
    if es.len() == 0 {
        Ok(Seq::empty())
    } else {
        match entries_of(es.drop_last(), at) {
            Err(m) => Err(m),
            Ok(is) => match entry_of(es.last(), at) {
                Ok(i) => Ok(is.push(i)),
                Err(m) => Err(m),
            },
        }
    }
}

/// The intents a reply document describes, or the fault that rejects it.
pub open spec fn plan_of(doc: Json, at: u64) -> Result<Seq<Intent>, Seq<char>> {
    match member_of(doc, "intents"@) {
        Some(Json::Array(es)) => entries_of(es@, at),
        _ => Err("Missing 'intents' array"@),
    }
}

/// The member `key` of an object value.
pub fn find_member<'a>(doc: &'a Json, key: &str) -> (r: Option<&'a Json>)
    ensures
        deref_json(r) == member_of(*doc, key@),
{
    match doc {
        Json::Object(ms) => {
            let mut k: usize = 0;
            assert(ms@.subrange(0, ms@.len() as int) == ms@);
            while k < ms.len()
                invariant
                    k <= ms@.len(),
                    member_of(*doc, key@) == first_member(ms@, key@),
                    first_member(ms@, key@) == first_member(ms@.subrange(k as int, ms@.len() as int), key@),
                decreases ms@.len() - k,
            {
                proof {
                    let rest = ms@.subrange(k as int, ms@.len() as int);
                    assert(rest[0] == ms@[k as int]);
                    assert(rest.drop_first() == ms@.subrange(k + 1, ms@.len() as int));
                }
                if text_equals(ms[k].0.as_str(), key) {
                    proof {
                        let rest = ms@.subrange(k as int, ms@.len() as int);
                        assert(rest[0].0@ == key@);
                        assert(first_member(rest, key@) == Some(ms@[k as int].1));
                    }
                    return Some(&ms[k].1);
                }
                k = k + 1;
            }
            None
        },
        _ => None,
    }
}

fn text_in(j: Option<&Json>) -> (r: Option<&str>)
    ensures
        text_view(r) == text_value(deref_json(j)),
{
    match j {
        Some(Json::Text(s)) => Some(s.as_str()),
        _ => None,
    }
}

/// Reads plain decimal digits into a `u64`; `None` for other text or overflow.
pub fn parse_u64(text: &str) -> (r: Option<u64>)
    ensures
        r == u64_of(text@),
{
    let n = text.unicode_len();
    if n == 0 {
        return None;
    }
    let mut acc: u64 = 0;
    let mut i: usize = 0;
    while i < n
        invariant
            n == text@.len(),
            i <= n,
            all_digits(text@.subrange(0, i as int)),
            acc == digits_value(text@.subrange(0, i as int)),
        decreases n - i,
    {
        let c = text.get_char(i);
        if !is_digit_char(c) {
            return None;
        }
        proof {
            let p = text@.subrange(0, i + 1);
            assert(p.drop_last() == text@.subrange(0, i as int));
            assert(p.last() == c);
            assert forall|q: int| 0 <= q < p.len() implies is_digit(#[trigger] p[q]) by {
                if q < i {
                    assert(p[q] == text@.subrange(0, i as int)[q]);
                }
            }
        }
        let wide: u128 = acc as u128 * 10 + (c as u32 - '0' as u32) as u128;
        if wide > u64::MAX as u128 {
            proof {
                if all_digits(text@) {
                    lemma_digits_monotone(text@, i + 1);
                }
            }
            return None;
        }
        acc = wide as u64;
        i = i + 1;
    }
    proof { assert(text@.subrange(0, n as int) == text@); }
    Some(acc)
}

fn u64_in(j: Option<&Json>) -> (r: Option<u64>)
    ensures
        r == u64_value(deref_json(j)),
{
    match j {
        Some(Json::Number(t)) => parse_u64(t.as_str()),
        _ => None,
    }
}

fn milli_in(j: Option<&Json>) -> (r: Option<i64>)
    ensures
        r matches Some(v) ==> milli_value(deref_json(j)) == Some(v as int),
        r is None ==> milli_value(deref_json(j)) is None,
        r matches Some(v) ==> -COORD_LIMIT <= v <= COORD_LIMIT,
{
    match j {
        Some(Json::Number(t)) => parse_milli(t.as_str()),
        _ => None,
    }
}

fn point_in(j: Option<&Json>) -> (r: Option<Vec2>)
    ensures
        r == point_value(deref_json(j)),
        r matches Some(p) ==> p.wf(),
{
    match j {
        Some(p) => {
            let x = milli_in(find_member(p, "x"));
            let y = milli_in(find_member(p, "y"));
            match (x, y) {
                (Some(x), Some(y)) => Some(Vec2 { x, y }),
                _ => None,
            }
        },
        None => None,
    }
}

/// Reads a wire action object; `None` for an unknown type or a missing field.
pub fn parse_action(action_json: &Json) -> (r: Option<Action>)
    ensures
        r == action_of_json(*action_json),
{
    let kind = match text_in(find_member(action_json, "type")) {
        Some(k) => k,
        None => return None,
    };
    let target = point_in(find_member(action_json, "target"));
    let target_id = u64_in(find_member(action_json, "target_id"));
    let position = point_in(find_member(action_json, "position"));
    action_from_fields(kind, target, target_id, position)
}

/// Reads one entry of the `intents` array. The action is read only for a
/// New entry.
pub fn parse_entry(entry: &Json, generated_at_ms: u64) -> (r: Result<Intent, String>)
    ensures
        match r {
            Ok(i) => entry_of(*entry, generated_at_ms) == Ok::<Intent, Seq<char>>(i),
            Err(m) => entry_of(*entry, generated_at_ms) == Err::<Intent, Seq<char>>(m@),
        },
{
    let player_id = u64_in(find_member(entry, "player_id"));
    let status = text_in(find_member(entry, "status"));
    let wants_action = match status {
        Some(s) => parse_status(s) == Some(IntentStatus::New),
        None => false,
    };
    let action_json = find_member(entry, "action");
    let action = if wants_action {
        match action_json {
            Some(a) => parse_action(a),
            None => None,
        }
    } else {
        None
    };
    let ghost full = match member_of(*entry, "action"@) {
        Some(a) => action_of_json(a),
        None => None,
    };
    assert(intent_of(player_id, text_view(status), action, generated_at_ms)
        == intent_of(player_id, text_view(status), full, generated_at_ms));
    build_intent(player_id, status, action, generated_at_ms)
}

/// The plan a reply document describes: the `intents` array read entry by
/// entry, in order; the first faulty entry rejects the whole plan.
pub fn plan_from_json(doc: &Json, generated_at_ms: u64, latency_ms: u64) -> (r: Result<ActionPlan, String>)
    ensures
        match r {
            Ok(p) => plan_of(*doc, generated_at_ms) == Ok::<Seq<Intent>, Seq<char>>(p.intents@)
                && p.generated_at_ms == generated_at_ms && p.latency_ms == latency_ms,
            Err(m) => plan_of(*doc, generated_at_ms) == Err::<Seq<Intent>, Seq<char>>(m@),
        },
{
    let items = match find_member(doc, "intents") {
        Some(Json::Array(a)) => a,
        _ => return Err(message("Missing 'intents' array")),
    };
    let mut intents: Vec<Intent> = Vec::new();
    let mut k: usize = 0;
    assert(plan_of(*doc, generated_at_ms) == entries_of(items@, generated_at_ms));
    while k < items.len()
        invariant
            k <= items@.len(),
            plan_of(*doc, generated_at_ms) == entries_of(items@, generated_at_ms),
            entries_of(items@.subrange(0, k as int), generated_at_ms) == Ok::<Seq<Intent>, Seq<char>>(intents@),
        decreases items@.len() - k,
    {
        proof {
            let p = items@.subrange(0, k + 1);
            assert(p.drop_last() == items@.subrange(0, k as int));
            assert(p.last() == items@[k as int]);
        }
        match parse_entry(&items[k], generated_at_ms) {
            Ok(i) => intents.push(i),
            Err(m) => {
                proof {
                    let p = items@.subrange(0, k + 1);
                    assert(entry_of(p.last(), generated_at_ms) == Err::<Intent, Seq<char>>(m@));
                    assert(entries_of(p, generated_at_ms) == Err::<Seq<Intent>, Seq<char>>(m@));
                    lemma_entries_fault_stays(items@, k as int + 1, generated_at_ms);
                }
                return Err(m);
            },
        }
        k = k + 1;
    }
    proof { assert(items@.subrange(0, items@.len() as int) == items@); }
    Ok(ActionPlan::new(intents, generated_at_ms, latency_ms))
}

proof fn lemma_milli_in_range(s: Seq<char>)
    ensures
        milli_of(s) matches Some(v) ==> -COORD_LIMIT <= v <= COORD_LIMIT,
{
    let neg = s.len() > 0 && s[0] == '-';
    let body = if neg { s.drop_first() } else { s };
    let n = lead_digits(body) as int;
    lemma_lead_digits(body);
    let ip = body.subrange(0, n);
    assert forall|i: int| 0 <= i < ip.len() implies is_digit(#[trigger] ip[i]) by {
        assert(ip[i] == body[i]);
    }
    lemma_digits_nonneg(ip);
    if n < body.len() && body.len() > n + 1 {
        let f = body.subrange(n + 1, body.len() as int);
        if all_digits(f) {
            assert(is_digit(f[0]));
            if f.len() > 1 { assert(is_digit(f[1])); }
            if f.len() > 2 { assert(is_digit(f[2])); }
        }
    }
}

/// Every intent a reply document yields is one a planner can express: time
/// stamped with the plan, without a duration, New or Continue, an action
/// only on New, and every coordinate within range.
pub proof fn lemma_plan_intents_are_wire(doc: Json, at: u64)
    ensures
        plan_of(doc, at) is Ok ==> forall|k: int| 0 <= k < plan_of(doc, at)->Ok_0.len()
            ==> wire_intent(#[trigger] plan_of(doc, at)->Ok_0[k], at),
{
    match member_of(doc, "intents"@) {
        Some(Json::Array(es)) => lemma_entries_are_wire(es@, at),
        _ => {},
    }
}

proof fn lemma_entries_are_wire(es: Seq<Json>, at: u64)
    ensures
        entries_of(es, at) is Ok ==> forall|k: int| 0 <= k < entries_of(es, at)->Ok_0.len()
            ==> wire_intent(#[trigger] entries_of(es, at)->Ok_0[k], at),
    decreases es.len(),
{
    if es.len() > 0 {
        lemma_entries_are_wire(es.drop_last(), at);
        let e = es.last();
        if let Some(a) = member_of(e, "action"@) {
            lemma_action_in_range(a);
        }
    }
}

proof fn lemma_action_in_range(a: Json)
    ensures
        action_of_json(a) matches Some(x) ==> action_in_range(x),
{
    lemma_point_in_range(member_of(a, "target"@));
    lemma_point_in_range(member_of(a, "position"@));
}

proof fn lemma_point_in_range(j: Option<Json>)
    ensures
        point_value(j) matches Some(p) ==> p.wf(),
{
    if let Some(p) = j {
        if let Some(Json::Number(t)) = member_of(p, "x"@) {
            lemma_milli_in_range(t@);
        }
        if let Some(Json::Number(t)) = member_of(p, "y"@) {
            lemma_milli_in_range(t@);
        }
    }
}

/// A fault in a prefix of the entries is the fault of all of them.
proof fn lemma_entries_fault_stays(es: Seq<Json>, n: int, at: u64)
    requires
        0 <= n <= es.len(),
        entries_of(es.subrange(0, n), at) is Err,
    ensures
        entries_of(es, at) == entries_of(es.subrange(0, n), at),
    decreases es.len() - n,
{
    if n < es.len() {
        let q = es.subrange(0, n + 1);
        assert(q.drop_last() == es.subrange(0, n));
        lemma_entries_fault_stays(es, n + 1, at);
    } else {
        assert(es.subrange(0, n) == es);
    }
}

/// Reads a planner's reply. Text that is not JSON fails with a
/// "Failed to parse JSON: " message; otherwise the result is `plan_of` of the
/// document, with the given time stamps.
pub fn parse_response(response: &str, generated_at_ms: u64, latency_ms: u64) -> (r: Result<ActionPlan, String>)
    ensures
        json_of(response@) is None ==> r is Err,
        json_of(response@) is None ==> (r matches Err(e) && e@.len() >= 22 && e@.subrange(0, 22) == "Failed to parse JSON: "@),
        json_of(response@) matches Some(d) ==> (r is Ok <==> plan_of(d, generated_at_ms) is Ok),
        json_of(response@) matches Some(d) ==> (r matches Ok(p) ==> p.intents@ == plan_of(d, generated_at_ms)->Ok_0
            && p.generated_at_ms == generated_at_ms && p.latency_ms == latency_ms),
        json_of(response@) matches Some(d) ==> (r matches Err(e) ==> plan_of(d, generated_at_ms) == Err::<Seq<Intent>, Seq<char>>(e@)),
        r matches Ok(p) ==> forall|k: int| 0 <= k < p.intents@.len() ==> wire_intent(#[trigger] p.intents@[k], generated_at_ms),
{
    match parse_document(response) {
        Ok(doc) => {
            let r = plan_from_json(&doc, generated_at_ms, latency_ms);
            proof {
                lemma_plan_intents_are_wire(doc, generated_at_ms);
                if r is Ok {
                    let is = r->Ok_0.intents@;
                    assert(plan_of(doc, generated_at_ms) == Ok::<Seq<Intent>, Seq<char>>(is));
                    assert(plan_of(doc, generated_at_ms) is Ok);
                    assert forall|k: int| 0 <= k < is.len() implies wire_intent(#[trigger] is[k], generated_at_ms) by {
                        assert(plan_of(doc, generated_at_ms)->Ok_0 == is);
                        assert(wire_intent(plan_of(doc, generated_at_ms)->Ok_0[k], generated_at_ms));
                    }
                }
            }
            r
        },
        Err(err) => {
            let mut e = message("Failed to parse JSON: ");
            let detail = json_error_text(&err);
            e.append(detail.as_str());
            proof { reveal_strlit("Failed to parse JSON: "); }
            assert(e@.subrange(0, 22) =~= "Failed to parse JSON: "@);
            Err(e)
        },
    }
}

/// The wire `type` name of an action.
pub open spec fn kind_name(a: Action) -> Seq<char> {
    match a {
        Action::AttackSpace { .. } => "AttackSpace"@,
        Action::MarkPlayer { .. } => "MarkPlayer"@,
        Action::FindPassOption => "FindPassOption"@,
        Action::HoldPosition => "HoldPosition"@,
        Action::Press { .. } => "Press"@,
        Action::MoveToBall => "MoveToBall"@,
        Action::ReturnToPosition { .. } => "ReturnToPosition"@,
        Action::BlockSpace { .. } => "BlockSpace"@,
    }
}

/// The wire `target` field of an action.
pub open spec fn target_field(a: Action) -> Option<Vec2> {
    match a {
        Action::AttackSpace { target } => Some(target),
        Action::Press { target } => Some(target),
        Action::BlockSpace { target } => Some(target),
        _ => None,
    }
}

/// The wire `target_id` field of an action.
pub open spec fn target_id_field(a: Action) -> Option<u64> {
    match a {
        Action::MarkPlayer { target_id } => Some(target_id as u64),
        _ => None,
    }
}

/// The wire `position` field of an action.
pub open spec fn position_field(a: Action) -> Option<Vec2> {
    match a {
        Action::ReturnToPosition { position } => Some(position),
        _ => None,
    }
}

/// The wire `status` text of a status.
pub open spec fn status_name(s: IntentStatus) -> Seq<char> {
    match s {
        IntentStatus::New => "New"@,
        IntentStatus::Continue => "Continue"@,
        IntentStatus::Idle => "Idle"@,
    }
}

/// Writing an intent's fields in the wire format and reading them back
/// gives the same intent: same player, status and action. This covers every
/// intent a planner can express (New or Continue, an action only on New).
pub proof fn lemma_wire_round_trip(i: Intent)
    requires
        i.status != IntentStatus::Idle,
        i.status == IntentStatus::Continue ==> i.action is None,
        i.duration_ms is None,
    ensures
        (i.action matches Some(a) ==> action_of(kind_name(a), target_field(a), target_id_field(a), position_field(a)) == Some(a)),
        intent_of(Some(i.player_id as u64), Some(status_name(i.status)), i.action, i.created_at_ms) == Ok::<Intent, Seq<char>>(i),
{
    reveal_strlit("AttackSpace");
    reveal_strlit("MarkPlayer");
    reveal_strlit("FindPassOption");
    reveal_strlit("HoldPosition");
    reveal_strlit("Press");
    reveal_strlit("MoveToBall");
    reveal_strlit("ReturnToPosition");
    reveal_strlit("BlockSpace");
    reveal_strlit("New");
    reveal_strlit("new");
    reveal_strlit("Continue");
    reveal_strlit("continue");
    assert(text_eq_ci("New"@, "new"@));
    assert(text_eq_ci("Continue"@, "continue"@));
    assert(!text_eq_ci("Continue"@, "new"@));
    assert("AttackSpace"@.len() == 11 && "FindPassOption"@.len() == 14 && "HoldPosition"@.len() == 12);
    assert("Press"@.len() == 5 && "ReturnToPosition"@.len() == 16);
    assert("MarkPlayer"@.len() == 10 && "MoveToBall"@.len() == 10 && "BlockSpace"@.len() == 10);
    assert("MarkPlayer"@[1] == 'a' && "MoveToBall"@[1] == 'o' && "BlockSpace"@[1] == 'l');
}

/// An entry whose fields read back as the fields of `i`.
pub open spec fn entry_writes(e: Json, i: Intent) -> bool {
    &&& u64_value(member_of(e, "player_id"@)) == Some(i.player_id as u64)
    &&& text_value(member_of(e, "status"@)) == Some(status_name(i.status))
    &&& (i.status == IntentStatus::New ==> match member_of(e, "action"@) {
        Some(x) => action_of_json(x),
        None => None,
    } == i.action)
}

/// Writing intents as the entries of an `intents` array and reading the
/// document back gives the same intents, one for one and in order, for every
/// intent a planner can express.
pub proof fn lemma_plan_round_trip(doc: Json, es: Seq<Json>, is: Seq<Intent>, at: u64)
    requires
        member_of(doc, "intents"@) matches Some(Json::Array(a)) && a@ == es,
        es.len() == is.len(),
        forall|k: int| 0 <= k < is.len() ==> entry_writes(#[trigger] es[k], is[k]),
        forall|k: int| 0 <= k < is.len() ==> {
            &&& (#[trigger] is[k]).status != IntentStatus::Idle
            &&& (is[k].status == IntentStatus::Continue ==> is[k].action is None)
            &&& is[k].duration_ms is None
            &&& is[k].created_at_ms == at
        },
    ensures
        plan_of(doc, at) == Ok::<Seq<Intent>, Seq<char>>(is),
{
    lemma_entries_round_trip(es, is, at);
}

proof fn lemma_entries_round_trip(es: Seq<Json>, is: Seq<Intent>, at: u64)
    requires
        es.len() == is.len(),
        forall|k: int| 0 <= k < is.len() ==> entry_writes(#[trigger] es[k], is[k]),
        forall|k: int| 0 <= k < is.len() ==> {
            &&& (#[trigger] is[k]).status != IntentStatus::Idle
            &&& (is[k].status == IntentStatus::Continue ==> is[k].action is None)
            &&& is[k].duration_ms is None
            &&& is[k].created_at_ms == at
        },
    ensures
        entries_of(es, at) == Ok::<Seq<Intent>, Seq<char>>(is),
    decreases es.len(),
{
    if es.len() > 0 {
        let n = es.len() - 1;
        assert forall|k: int| 0 <= k < n implies entry_writes(#[trigger] es.drop_last()[k], is.drop_last()[k]) by {
            assert(es.drop_last()[k] == es[k] && is.drop_last()[k] == is[k]);
        }
        assert forall|k: int| 0 <= k < n implies {
            &&& (#[trigger] is.drop_last()[k]).status != IntentStatus::Idle
            &&& (is.drop_last()[k].status == IntentStatus::Continue ==> is.drop_last()[k].action is None)
            &&& is.drop_last()[k].duration_ms is None
            &&& is.drop_last()[k].created_at_ms == at
        } by {
            assert(is.drop_last()[k] == is[k]);
        }
        lemma_entries_round_trip(es.drop_last(), is.drop_last(), at);
        let i = is[n];
        assert(entry_writes(es[n], i));
        assert(es.last() == es[n]);
        lemma_wire_round_trip(i);
        assert(i.player_id as u64 as u32 == i.player_id);
        assert(entry_of(es.last(), at) == Ok::<Intent, Seq<char>>(i));
        assert(is.drop_last().push(i) =~= is);
    } else {
        assert(is =~= Seq::<Intent>::empty());
    }
}

fn is_digit_char(c: char) -> (r: bool)
    ensures
        r == is_digit(c),
{
    '0' <= c && c <= '9'
}

} // verus!
