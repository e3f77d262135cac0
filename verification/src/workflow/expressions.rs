//! Expressions in a workflow: a variable, and methods that its value is passed through.

use vstd::prelude::*;

use crate::strings::{
    ascii_lower, cat2, decimal, find_from, joined, lemma_decimal_is_the_number,
    lemma_split_is_undone_by_joining, position_from, split_from, split_text, str_eq, trim, trimmed,
    views,
};
use crate::text::{from_chars, to_chars};
use crate::types::GitError;

verus! {

/// A value on its way through the methods of an expression.
#[derive(Debug, PartialEq, Eq)]
pub enum PipeValue {
    Text(String),
    List(Vec<String>),
}

pub enum PipeView {
    Text(Seq<char>),
    List(Seq<Seq<char>>),
}

impl View for PipeValue {
    type V = PipeView;

    open spec fn view(&self) -> PipeView {
        match self {
            PipeValue::Text(t) => PipeView::Text(t@),
            PipeValue::List(l) => PipeView::List(views(l@)),
        }
    }
}

/// Why an expression has no value.
pub enum PipeFault {
    /// The method is not known.
    UnknownMethod(Seq<char>),
    /// The method does not go with its value or its argument.
    WrongUse(Seq<char>),
    /// What comes out is a list.
    ListResult(Seq<char>),
}

pub open spec fn pipe_fault_text(fault: PipeFault) -> Seq<char> {
    match fault {
        PipeFault::UnknownMethod(name) => "未知工作流方法："@ + name,
        PipeFault::WrongUse(method) => "工作流方法不能用于该值："@ + method,
        PipeFault::ListResult(expression) => "工作流表达式的最终结果是数组："@ + expression,
    }
}

// ---------------------------------------------------------------------------
// Taking an expression apart
// ---------------------------------------------------------------------------
/// The first `|` from `from` on that stands outside quotes, or the length.
pub open spec fn next_bar(s: Seq<char>, from: int, quoted: bool) -> int
    decreases s.len() - from,
{
    if from < 0 || from >= s.len() {
        s.len() as int
    } else if s[from] == '\'' {
        next_bar(s, from + 1, !quoted)
    } else if s[from] == '|' && !quoted {
        from
    } else {
        next_bar(s, from + 1, quoted)
    }
}

pub proof fn lemma_next_bar(s: Seq<char>, from: int, quoted: bool)
    requires
        0 <= from <= s.len(),
    ensures
        from <= next_bar(s, from, quoted) <= s.len(),
        next_bar(s, from, quoted) < s.len() ==> s[next_bar(s, from, quoted)] == '|',
    decreases s.len() - from,
{
    if from < s.len() {
        if s[from] == '\'' {
            lemma_next_bar(s, from + 1, !quoted);
        } else if !(s[from] == '|' && !quoted) {
            lemma_next_bar(s, from + 1, quoted);
        }
    }
}

fn find_bar(s: &Vec<char>, from: usize) -> (r: usize)
    requires
        from <= s@.len(),
    ensures
        r == next_bar(s@, from as int, false),
        from <= r <= s@.len(),
{
    let mut i: usize = from;
    let mut quoted: bool = false;
    while i < s.len()
        invariant
            from <= i <= s@.len(),
            next_bar(s@, from as int, false) == next_bar(s@, i as int, quoted),
        decreases s@.len() - i,
    {
        if s[i] == '\'' {
            quoted = !quoted;
        } else if s[i] == '|' && !quoted {
            return i;
        }
        i = i + 1;
    }
    i
}

/// A method as it is written, such as `truncate:12`: its name and its argument.
pub open spec fn method_name(method: Seq<char>) -> Seq<char> {
    trimmed(method.take(position_from(method, ':', 0)))
}

pub open spec fn method_argument(method: Seq<char>) -> Seq<char> {
    let at = position_from(method, ':', 0);
    if at < method.len() {
        unquoted(trimmed(method.skip(at + 1)))
    } else {
        Seq::empty()
    }
}

/// `s` without the quotes around it.
pub open spec fn unquoted(s: Seq<char>) -> Seq<char> {
    if s.len() >= 2 && s[0] == '\'' && s.last() == '\'' {
        s.subrange(1, s.len() - 1)
    } else {
        s
    }
}

// ---------------------------------------------------------------------------
// Methods
// ---------------------------------------------------------------------------
pub open spec fn is_slug_char(c: char) -> bool {
    ('a' <= c && c <= 'z') || ('A' <= c && c <= 'Z') || ('0' <= c && c <= '9')
}

/// `s` as a part of a branch name: letters made small, digits kept, and one `-` for each run
/// of other characters between them.
pub open spec fn slug_of(s: Seq<char>) -> Seq<char>
    decreases s.len(),
{
    if s.len() == 0 {
        Seq::empty()
    } else {
        let head = slug_of(s.drop_last());
        let c = s.last();
        if !is_slug_char(c) {
            head
        } else if s.len() >= 2 && !is_slug_char(s[s.len() - 2]) && head.len() > 0 {
            head.push('-').push(crate::strings::ascii_lower(c))
        } else {
            head.push(crate::strings::ascii_lower(c))
        }
    }
}

/// The number that decimal digits stand for, held below the length of any text.
pub open spec fn number_of(s: Seq<char>) -> Option<int>
    decreases s.len(),
{
    if s.len() == 0 {
        None
    } else if !('0' <= s.last() && s.last() <= '9') {
        None
    } else if s.len() == 1 {
        Some(s[0] as int - 48)
    } else {
        match number_of(s.drop_last()) {
            Some(n) => Some(n * 10 + (s.last() as int - 48)),
            None => None,
        }
    }
}

/// What a method makes of a value.
pub open spec fn applied(value: PipeView, method: Seq<char>) -> Result<PipeView, PipeFault> {
    let name = method_name(method);
    let arg = method_argument(method);
    if name == "split"@ {
        match value {
            PipeView::Text(t) => if arg.len() == 1 {
                Ok(PipeView::List(split_from(t, arg[0], 0)))
            } else {
                Err(PipeFault::WrongUse(method))
            },
            PipeView::List(_) => Err(PipeFault::WrongUse(method)),
        }
    } else if name == "last"@ {
        match value {
            PipeView::List(l) => if l.len() > 0 {
                Ok(PipeView::Text(l.last()))
            } else {
                Err(PipeFault::WrongUse(method))
            },
            PipeView::Text(_) => Err(PipeFault::WrongUse(method)),
        }
    } else if name == "slug"@ {
        match value {
            PipeView::Text(t) => Ok(PipeView::Text(slug_of(t))),
            PipeView::List(_) => Err(PipeFault::WrongUse(method)),
        }
    } else if name == "truncate"@ {
        match (value, number_of(arg)) {
            (PipeView::Text(t), Some(n)) => Ok(
                PipeView::Text(
                    if n < t.len() {
                        t.take(n)
                    } else {
                        t
                    },
                ),
            ),
            _ => Err(PipeFault::WrongUse(method)),
        }
    } else {
        Err(PipeFault::UnknownMethod(name))
    }
}

/// What the methods of an expression from position `from` on make of a value.
pub open spec fn piped(expression: Seq<char>, from: int, value: PipeView) -> Result<
    PipeView,
    PipeFault,
>
    decreases expression.len() - from,
{
    if from < 0 || from > expression.len() {
        Ok(value)
    } else {
        let end = next_bar(expression, from, false);
        match applied(value, trimmed(expression.subrange(from, end))) {
            Err(fault) => Err(fault),
            Ok(next) => if end >= expression.len() || end < from {
                Ok(next)
            } else {
                piped(expression, end + 1, next)
            },
        }
    }
}

/// The variable that an expression starts from.
pub open spec fn primary_of(expression: Seq<char>) -> Seq<char> {
    trimmed(expression.take(next_bar(expression, 0, false)))
}

/// What an expression comes to, given the value of its variable.
pub open spec fn evaluated(expression: Seq<char>, primary: Seq<char>) -> Result<
    Seq<char>,
    PipeFault,
> {
    let end = next_bar(expression, 0, false);
    if end >= expression.len() {
        Ok(primary)
    } else {
        match piped(expression, end + 1, PipeView::Text(primary)) {
            Ok(PipeView::Text(t)) => Ok(t),
            Ok(PipeView::List(_)) => Err(PipeFault::ListResult(expression)),
            Err(fault) => Err(fault),
        }
    }
}

fn slug(t: &str) -> (r: String)
    ensures
        r@ == slug_of(t@),
{
    let chars: Vec<char> = to_chars(t);
    let mut r = String::new();
    let mut i: usize = 0;
    let mut empty: bool = true;
    assert(chars@.take(0) =~= Seq::<char>::empty());
    assert(r@ =~= slug_of(chars@.take(0)));
    while i < chars.len()
        invariant
            i <= chars@.len(),
            r@ == slug_of(chars@.take(i as int)),
            empty == (r@.len() == 0),
        decreases chars@.len() - i,
    {
        let c: char = chars[i];
        proof {
            let more = chars@.take(i as int + 1);
            assert(more.drop_last() =~= chars@.take(i as int));
            assert(more.last() == c);
            if i > 0 {
                assert(more[more.len() - 2] == chars@[i - 1]);
            }
        }
        if is_slug(c) {
            if i > 0 && !is_slug(chars[i - 1]) && !empty {
                r.push('-');
            }
            r.push(lower(c));
            empty = false;
        }
        i = i + 1;
    }
    assert(chars@.take(i as int) =~= chars@);
    r
}

fn is_slug(c: char) -> (r: bool)
    ensures
        r == is_slug_char(c),
{
    ('a' <= c && c <= 'z') || ('A' <= c && c <= 'Z') || ('0' <= c && c <= '9')
}

fn lower(c: char) -> (r: char)
    ensures
        r == crate::strings::ascii_lower(c),
{
    if 'A' <= c && c <= 'Z' {
        let b: u8 = c as u8 + 32;
        b as char
    } else {
        c
    }
}

proof fn lemma_number_nonneg(s: Seq<char>)
    ensures
        number_of(s) matches Some(n) ==> n >= 0,
    decreases s.len(),
{
    if s.len() > 1 {
        lemma_number_nonneg(s.drop_last());
    }
}

/// The number that digits stand for, or `limit` if it is larger.
fn number_up_to(s: &str, limit: usize) -> (r: Option<usize>)
    ensures
        match number_of(s@) {
            Some(n) => r matches Some(x) && x == if n < limit {
                n
            } else {
                limit as int
            },
            None => r is None,
        },
{
    let chars: Vec<char> = to_chars(s);
    if chars.len() == 0 {
        return None;
    }
    let mut n: usize = 0;
    let mut i: usize = 0;
    while i < chars.len()
        invariant
            i <= chars@.len(),
            chars@ == s@,
            chars@.len() > 0,
            n <= limit,
            i > 0 ==> match number_of(chars@.take(i as int)) {
                Some(x) => n == if x < limit {
                    x
                } else {
                    limit as int
                },
                None => false,
            },
            i == 0 ==> n == 0,
        decreases chars@.len() - i,
    {
        let c: char = chars[i];
        proof {
            let more = chars@.take(i as int + 1);
            assert(more.drop_last() =~= chars@.take(i as int));
            assert(more.last() == c);
            lemma_number_nonneg(chars@.take(i as int));
        }
        if !('0' <= c && c <= '9') {
            proof {
                lemma_no_number(chars@, i as int);
            }
            return None;
        }
        let d: usize = (c as u32 - 48) as usize;
        // Saturates at the limit.
        if n > (limit - (if d < limit { d } else { limit })) / 10 {
            n = limit;
        } else if n * 10 + d < limit {
            n = n * 10 + d;
        } else {
            n = limit;
        }
        i = i + 1;
    }
    assert(chars@.take(i as int) =~= chars@);
    Some(n)
}

/// A text with a character that is no digit is no number.
proof fn lemma_no_number(s: Seq<char>, at: int)
    requires
        0 <= at < s.len(),
        !('0' <= s[at] && s[at] <= '9'),
    ensures
        number_of(s) is None,
    decreases s.len(),
{
    if at < s.len() - 1 {
        lemma_no_number(s.drop_last(), at);
    }
}

fn strip_quotes(s: &str) -> (r: String)
    ensures
        r@ == unquoted(s@),
{
    let chars: Vec<char> = to_chars(s);
    if chars.len() >= 2 && chars[0] == '\'' && chars[chars.len() - 1] == '\'' {
        from_chars(&chars, 1, chars.len() - 1)
    } else {
        s.to_string()
    }
}

pub fn pipe_error(text: &str, of: &str) -> (r: GitError)
    ensures
        r.says(text@ + of@),
{
    GitError::Message(cat2(text, of))
}

/// What a method makes of a value.
pub fn apply_method(value: PipeValue, method: &str) -> (r: Result<PipeValue, GitError>)
    ensures
        match applied(value@, method@) {
            Ok(v) => r matches Ok(x) && x@ == v,
            Err(fault) => r matches Err(e) && e.says(pipe_fault_text(fault)),
        },
{
    let chars: Vec<char> = to_chars(method);
    let at: usize = find_from(&chars, ':', 0);
    let name_text: String = from_chars(&chars, 0, at);
    assert(name_text@ =~= method@.take(position_from(method@, ':', 0)));
    let name: String = trim(name_text.as_str());
    let argument: String = if at < chars.len() {
        let rest = from_chars(&chars, at + 1, chars.len());
        assert(rest@ =~= method@.skip(at + 1));
        let bare: String = trim(rest.as_str());
        strip_quotes(bare.as_str())
    } else {
        String::new()
    };
    assert(argument@ =~= method_argument(method@));
    if str_eq(name.as_str(), "split") {
        match value {
            PipeValue::Text(t) => {
                let sep: Vec<char> = to_chars(argument.as_str());
                if sep.len() == 1 {
                    Ok(PipeValue::List(split_text(t.as_str(), sep[0])))
                } else {
                    Err(pipe_error("工作流方法不能用于该值：", method))
                }
            },
            PipeValue::List(_) => Err(pipe_error("工作流方法不能用于该值：", method)),
        }
    } else if str_eq(name.as_str(), "last") {
        match value {
            PipeValue::List(l) => {
                if l.len() > 0 {
                    let t: String = l[l.len() - 1].clone();
                    assert(t@ == views(l@).last());
                    Ok(PipeValue::Text(t))
                } else {
                    Err(pipe_error("工作流方法不能用于该值：", method))
                }
            },
            PipeValue::Text(_) => Err(pipe_error("工作流方法不能用于该值：", method)),
        }
    } else if str_eq(name.as_str(), "slug") {
        match value {
            PipeValue::Text(t) => Ok(PipeValue::Text(slug(t.as_str()))),
            PipeValue::List(_) => Err(pipe_error("工作流方法不能用于该值：", method)),
        }
    } else if str_eq(name.as_str(), "truncate") {
        match value {
            PipeValue::Text(t) => {
                let tc: Vec<char> = to_chars(t.as_str());
                proof {
                    lemma_number_nonneg(argument@);
                }
                match number_up_to(argument.as_str(), tc.len()) {
                    Some(n) => {
                        let cut: String = from_chars(&tc, 0, n);
                        assert(cut@ =~= t@.take(n as int));
                        assert(n == t@.len() ==> t@.take(n as int) =~= t@);
                        Ok(PipeValue::Text(cut))
                    },
                    None => Err(pipe_error("工作流方法不能用于该值：", method)),
                }
            },
            PipeValue::List(_) => Err(pipe_error("工作流方法不能用于该值：", method)),
        }
    } else {
        Err(pipe_error("未知工作流方法：", name.as_str()))
    }
}

/// The variable that an expression starts from.
pub fn expression_primary(expression: &str) -> (r: String)
    ensures
        r@ == primary_of(expression@),
{
    let chars: Vec<char> = to_chars(expression);
    let end: usize = find_bar(&chars, 0);
    let head: String = from_chars(&chars, 0, end);
    assert(head@ =~= expression@.take(end as int));
    trim(head.as_str())
}

/// What an expression comes to, given the value of its variable.
pub fn evaluate_workflow_expression(expression: &str, primary: String) -> (r: Result<
    String,
    GitError,
>)
    ensures
        match evaluated(expression@, primary@) {
            Ok(t) => r matches Ok(x) && x@ == t,
            Err(fault) => r matches Err(e) && e.says(pipe_fault_text(fault)),
        },
{
    let chars: Vec<char> = to_chars(expression);
    let mut end: usize = find_bar(&chars, 0);
    let ghost start = PipeView::Text(primary@);
    let ghost first = end as int;
    if end >= chars.len() {
        return Ok(primary);
    }
    let mut value: PipeValue = PipeValue::Text(primary);
    while end < chars.len()
        invariant
            end <= chars@.len(),
            chars@ == expression@,
            first == next_bar(expression@, 0, false),
            first < expression@.len(),
            evaluated(expression@, primary@) == match piped(expression@, first + 1, start) {
                Ok(PipeView::Text(t)) => Ok(t),
                Ok(PipeView::List(_)) => Err(PipeFault::ListResult(expression@)),
                Err(fault) => Err(fault),
            },
            end < chars@.len() ==> piped(expression@, first + 1, start) == piped(
                expression@,
                end + 1,
                value@,
            ),
            end == chars@.len() ==> piped(expression@, first + 1, start) == Ok::<
                PipeView,
                PipeFault,
            >(value@),
        decreases chars@.len() - end,
    {
        let from: usize = end + 1;
        let next: usize = find_bar(&chars, from);
        let part: String = from_chars(&chars, from, next);
        assert(part@ =~= expression@.subrange(from as int, next as int));
        let method: String = trim(part.as_str());
        match apply_method(value, method.as_str()) {
            Ok(v) => {
                value = v;
            },
            Err(e) => {
                return Err(e);
            },
        }
        end = next;
    }
    match value {
        PipeValue::Text(t) => Ok(t),
        PipeValue::List(_) => Err(pipe_error("工作流表达式的最终结果是数组：", expression)),
    }
}

// ---------------------------------------------------------------------------
// Laws
// ---------------------------------------------------------------------------
/// How many quotes a text holds.
pub open spec fn quotes(s: Seq<char>) -> nat
    decreases s.len(),
{
    if s.len() == 0 {
        0
    } else {
        quotes(s.drop_last()) + if s.last() == '\'' {
            1nat
        } else {
            0
        }
    }
}

/// The part of an expression that starts at `from` ends at the first bar that does not stand
/// between quotes.
pub proof fn lemma_bars_between_quotes_do_not_count(s: Seq<char>, from: int)
    requires
        0 <= from <= s.len(),
    ensures
        ({
            let end = next_bar(s, from, false);
            &&& from <= end <= s.len()
            &&& end < s.len() ==> s[end] == '|' && quotes(s.subrange(from, end)) % 2 == 0
            &&& forall|i: int|
                #![trigger s[i]]
                from <= i < end && s[i] == '|' ==> quotes(s.subrange(from, i)) % 2 == 1
        }),
{
    assert(s.subrange(from, from) =~= Seq::<char>::empty());
    lemma_bar_after(s, from, from, false);
}

proof fn lemma_bar_after(s: Seq<char>, start: int, from: int, quoted: bool)
    requires
        0 <= start <= from <= s.len(),
        quoted == (quotes(s.subrange(start, from)) % 2 == 1),
    ensures
        ({
            let end = next_bar(s, from, quoted);
            &&& from <= end <= s.len()
            &&& end < s.len() ==> s[end] == '|' && quotes(s.subrange(start, end)) % 2 == 0
            &&& forall|i: int|
                #![trigger s[i]]
                from <= i < end && s[i] == '|' ==> quotes(s.subrange(start, i)) % 2 == 1
        }),
    decreases s.len() - from,
{
    if from < s.len() {
        let next = s.subrange(start, from + 1);
        assert(next.drop_last() =~= s.subrange(start, from));
        if s[from] == '\'' {
            lemma_bar_after(s, start, from + 1, !quoted);
        } else if s[from] == '|' && !quoted {
        } else {
            lemma_bar_after(s, start, from + 1, quoted);
        }
    }
}

proof fn lemma_no_quotes(s: Seq<char>)
    requires
        forall|i: int| 0 <= i < s.len() ==> #[trigger] s[i] != '\'',
    ensures
        quotes(s) == 0,
    decreases s.len(),
{
    if s.len() > 0 {
        assert forall|i: int| 0 <= i < s.drop_last().len() implies #[trigger] s.drop_last()[i]
            != '\'' by {
            assert(s.drop_last()[i] == s[i]);
        }
        assert(s[s.len() - 1] != '\'');
        lemma_no_quotes(s.drop_last());
    }
}

/// Whether a text holds neither a bar nor a quote.
pub open spec fn is_bare(s: Seq<char>) -> bool {
    forall|i: int| 0 <= i < s.len() ==> #[trigger] s[i] != '|' && s[i] != '\''
}

proof fn lemma_bare_part(s: Seq<char>, from: int, to: int)
    requires
        0 <= from <= to <= s.len(),
        forall|i: int| from <= i < to ==> #[trigger] s[i] != '|' && s[i] != '\'',
        to < s.len() ==> s[to] == '|',
    ensures
        next_bar(s, from, false) == to,
    decreases to - from,
{
    if from < to {
        assert(s[from] != '|');
        lemma_bare_part(s, from + 1, to);
    }
}

/// An expression without methods is a name, and stands for what the name stands for.
pub proof fn lemma_names_stand_for_themselves(name: Seq<char>, value: Seq<char>)
    requires
        is_bare(name),
    ensures
        primary_of(name) == trimmed(name),
        evaluated(name, value) == Ok::<Seq<char>, PipeFault>(value),
{
    lemma_bare_part(name, 0, name.len() as int);
    assert(name.take(name.len() as int) =~= name);
}

/// A name and the methods behind it, as an expression writes them.
pub open spec fn pipeline(name: Seq<char>, methods: Seq<Seq<char>>) -> Seq<char>
    decreases methods.len(),
{
    if methods.len() == 0 {
        name
    } else {
        pipeline(name, methods.drop_last()) + "|"@ + methods.last()
    }
}

/// What a value becomes by one method after the other.
pub open spec fn passed_through(value: PipeView, methods: Seq<Seq<char>>) -> Result<
    PipeView,
    PipeFault,
>
    decreases methods.len(),
{
    if methods.len() == 0 {
        Ok(value)
    } else {
        match passed_through(value, methods.drop_last()) {
            Ok(before) => applied(before, trimmed(methods.last())),
            Err(fault) => Err(fault),
        }
    }
}

/// The value of a name is passed through the methods behind the name, in the order in which they
/// are written, each one getting what the one before it gave; the first that fails decides. What
/// comes out in the end is a text.
pub proof fn lemma_methods_are_applied_in_turn(
    name: Seq<char>,
    methods: Seq<Seq<char>>,
    value: Seq<char>,
)
    requires
        is_bare(name),
        forall|i: int| 0 <= i < methods.len() ==> is_bare(#[trigger] methods[i]),
        methods.len() > 0,
    ensures
        primary_of(pipeline(name, methods)) == trimmed(name),
        match passed_through(PipeView::Text(value), methods) {
            Ok(PipeView::Text(t)) => evaluated(pipeline(name, methods), value) == Ok::<
                Seq<char>,
                PipeFault,
            >(t),
            Ok(PipeView::List(_)) => evaluated(pipeline(name, methods), value) == Err::<
                Seq<char>,
                PipeFault,
            >(PipeFault::ListResult(pipeline(name, methods))),
            Err(fault) => evaluated(pipeline(name, methods), value) == Err::<Seq<char>, PipeFault>(
                fault,
            ),
        },
{
    let whole = pipeline(name, methods);
    let n = name.len() as int;
    reveal_strlit("|");
    lemma_pipeline_starts(name, methods);
    assert forall|i: int| 0 <= i < n implies #[trigger] whole[i] != '|' && whole[i] != '\'' by {
        assert(whole.take(n)[i] == name[i]);
    }
    lemma_bare_part(whole, 0, n);
    assert(whole.take(n) =~= name);
    lemma_piped_in_turn(whole, n + 1, methods, PipeView::Text(value));
}

proof fn lemma_pipeline_starts(name: Seq<char>, methods: Seq<Seq<char>>)
    ensures
        pipeline(name, methods).len() >= name.len(),
        pipeline(name, methods).take(name.len() as int) == name,
        methods.len() > 0 ==> {
            &&& pipeline(name, methods).len() > name.len()
            &&& pipeline(name, methods)[name.len() as int] == '|'
            &&& pipeline(name, methods).skip(name.len() as int + 1) == pipeline(
                methods[0],
                methods.drop_first(),
            )
        },
    decreases methods.len(),
{
    reveal_strlit("|");
    let n = name.len() as int;
    let whole = pipeline(name, methods);
    if methods.len() == 0 {
        assert(whole.take(n) =~= name);
    } else if methods.len() == 1 {
        assert(methods.drop_last() =~= Seq::<Seq<char>>::empty());
        assert(pipeline(name, methods.drop_last()) == name);
        assert(whole =~= name + "|"@ + methods[0]);
        assert(whole.take(n) =~= name);
        assert(methods.drop_first() =~= Seq::<Seq<char>>::empty());
        assert(whole.skip(n + 1) =~= methods[0]);
    } else {
        let head = methods.drop_last();
        lemma_pipeline_starts(name, head);
        let before = pipeline(name, head);
        assert(whole.take(n) =~= before.take(n));
        assert(whole[n] == before[n]);
        assert(head.drop_first() =~= methods.drop_first().drop_last());
        assert(whole.skip(n + 1) =~= before.skip(n + 1) + "|"@ + methods.last());
    }
}

proof fn lemma_piped_in_turn(
    whole: Seq<char>,
    from: int,
    methods: Seq<Seq<char>>,
    value: PipeView,
)
    requires
        0 <= from <= whole.len(),
        methods.len() > 0,
        whole.skip(from) == pipeline(methods[0], methods.drop_first()),
        forall|i: int| 0 <= i < methods.len() ==> is_bare(#[trigger] methods[i]),
    ensures
        piped(whole, from, value) == passed_through(value, methods),
    decreases methods.len(),
{
    let first = methods[0];
    let rest = methods.drop_first();
    let tail = whole.skip(from);
    let to = from + first.len();
    lemma_pipeline_starts(first, rest);
    lemma_passed_first(value, methods);
    assert forall|i: int| from <= i < to implies #[trigger] whole[i] != '|' && whole[i] != '\'' by {
        assert(tail.take(first.len() as int)[i - from] == first[i - from]);
        assert(whole[i] == tail[i - from]);
    }
    if to < whole.len() {
        assert(tail.len() > first.len());
        if rest.len() == 0 {
            assert(tail == first);
        }
        assert(whole[to] == tail[first.len() as int]);
    }
    lemma_bare_part(whole, from, to);
    assert(whole.subrange(from, to) =~= tail.take(first.len() as int));
    if rest.len() > 0 {
        match applied(value, trimmed(first)) {
            Ok(next) => {
                assert(whole.skip(to + 1) =~= tail.skip(first.len() as int + 1));
                lemma_piped_in_turn(whole, to + 1, rest, next);
            },
            Err(_) => {},
        }
    } else {
        assert(tail == first);
        assert(to == whole.len());
    }
}

proof fn lemma_passed_first(value: PipeView, methods: Seq<Seq<char>>)
    requires
        methods.len() > 0,
    ensures
        passed_through(value, methods) == match applied(value, trimmed(methods[0])) {
            Ok(next) => passed_through(next, methods.drop_first()),
            Err(fault) => Err(fault),
        },
    decreases methods.len(),
{
    reveal_with_fuel(passed_through, 2);
    if methods.len() == 1 {
        assert(methods.drop_last() =~= Seq::<Seq<char>>::empty());
        assert(methods.drop_first() =~= Seq::<Seq<char>>::empty());
    } else {
        lemma_passed_first(value, methods.drop_last());
        assert(methods.drop_last().drop_first() =~= methods.drop_first().drop_last());
        assert(methods.drop_last()[0] == methods[0]);
    }
}

/// A method is written as its name alone, or as its name, a colon and what it is given; quotes
/// round what it is given are left out.
pub proof fn lemma_method_is_its_name_and_argument(name: Seq<char>, argument: Seq<char>)
    requires
        forall|i: int| 0 <= i < name.len() ==> #[trigger] name[i] != ':',
    ensures
        method_name(name) == trimmed(name),
        method_argument(name) == Seq::<char>::empty(),
        method_name(name + ":"@ + argument) == trimmed(name),
        method_argument(name + ":"@ + argument) == unquoted(trimmed(argument)),
        unquoted("'"@ + argument + "'"@) == argument,
        argument.len() > 0 && argument[0] != '\'' ==> unquoted(argument) == argument,
{
    reveal_strlit(":");
    reveal_strlit("'");
    let n = name.len() as int;
    let whole = name + ":"@ + argument;
    lemma_no_position(name, ':', 0);
    assert(name.take(n) =~= name);
    lemma_first_position(whole, ':', 0, n);
    assert(whole.take(n) =~= name);
    assert(whole.skip(n + 1) =~= argument);
    let q = "'"@ + argument + "'"@;
    assert(q.subrange(1, q.len() - 1) =~= argument);
}

proof fn lemma_no_position(s: Seq<char>, c: char, from: int)
    requires
        0 <= from <= s.len(),
        forall|i: int| from <= i < s.len() ==> #[trigger] s[i] != c,
    ensures
        position_from(s, c, from) == s.len(),
    decreases s.len() - from,
{
    if from < s.len() {
        assert(s[from] != c);
        lemma_no_position(s, c, from + 1);
    }
}

proof fn lemma_first_position(s: Seq<char>, c: char, from: int, at: int)
    requires
        0 <= from <= at < s.len(),
        forall|i: int| from <= i < at ==> #[trigger] s[i] != c,
        s[at] == c,
    ensures
        position_from(s, c, from) == at,
    decreases at - from,
{
    if from < at {
        assert(s[from] != c);
        lemma_first_position(s, c, from + 1, at);
    }
}

/// `split` cuts a text at a character: the parts do not hold it, and joined by it they are the
/// text again. A list cannot be cut.
pub proof fn lemma_split(value: PipeView, method: Seq<char>)
    requires
        method_name(method) == "split"@,
        method_argument(method).len() == 1,
    ensures
        match value {
            PipeView::Text(t) => {
                &&& applied(value, method) matches Ok(PipeView::List(parts))
                &&& joined(parts, method_argument(method)) == t
                &&& parts.len() > 0
                &&& forall|i: int|
                    0 <= i < parts.len() ==> !(#[trigger] parts[i]).contains(
                        method_argument(method)[0],
                    )
            },
            PipeView::List(_) => applied(value, method) == Err::<PipeView, PipeFault>(
                PipeFault::WrongUse(method),
            ),
        },
{
    if let PipeView::Text(t) = value {
        let c = method_argument(method)[0];
        lemma_split_is_undone_by_joining(t, c, 0);
        assert(method_argument(method) =~= seq![c]);
        assert(t.skip(0) =~= t);
    }
}

/// `last` takes the last of a list that is not empty, and nothing else has one.
pub proof fn lemma_last(value: PipeView, method: Seq<char>)
    requires
        method_name(method) == "last"@,
    ensures
        match value {
            PipeView::List(l) if l.len() > 0 => applied(value, method) == Ok::<
                PipeView,
                PipeFault,
            >(PipeView::Text(l[l.len() - 1])),
            _ => applied(value, method) == Err::<PipeView, PipeFault>(PipeFault::WrongUse(method)),
        },
{
    reveal_strlit("split");
    reveal_strlit("last");
    assert("split"@.len() != "last"@.len());
}

/// `truncate` keeps as many characters from the start of a text as it is told, or all of them if
/// there are no more.
pub proof fn lemma_truncate(text: Seq<char>, method: Seq<char>, n: nat)
    requires
        method_name(method) == "truncate"@,
        method_argument(method) == decimal(n),
    ensures
        applied(PipeView::Text(text), method) matches Ok(PipeView::Text(short)) && short.is_prefix_of(
            text,
        ) && short.len() == if n < text.len() {
            n
        } else {
            text.len()
        },
{
    reveal_strlit("split");
    reveal_strlit("last");
    reveal_strlit("slug");
    reveal_strlit("truncate");
    assert("truncate"@.len() == 8);
    lemma_numbers_are_read(n);
    if n < text.len() {
        assert(text.take(n as int).is_prefix_of(text));
    } else {
        assert(text.is_prefix_of(text));
    }
}

/// A number that is written in digits is read as that number.
pub proof fn lemma_numbers_are_read(n: nat)
    ensures
        number_of(decimal(n)) == Some(n as int),
    decreases n,
{
    lemma_decimal_is_the_number(n);
    reveal_with_fuel(number_of, 2);
    if n >= 10 {
        lemma_numbers_are_read(n / 10);
        assert(decimal(n).drop_last() =~= decimal(n / 10));
        assert(n == (n / 10) * 10 + n % 10);
    }
}

/// A text is a number if and only if it is made of digits.
pub proof fn lemma_only_digits_are_numbers(s: Seq<char>)
    ensures
        number_of(s) is Some <==> s.len() > 0 && (forall|i: int|
            0 <= i < s.len() ==> '0' <= #[trigger] s[i] <= '9'),
    decreases s.len(),
{
    if s.len() > 0 {
        lemma_only_digits_are_numbers(s.drop_last());
        let head = s.drop_last();
        if number_of(s) is Some {
            assert forall|i: int| 0 <= i < s.len() implies '0' <= #[trigger] s[i] <= '9' by {
                if i < s.len() - 1 {
                    assert(head[i] == s[i]);
                }
            }
        } else {
            if forall|i: int| 0 <= i < s.len() ==> '0' <= #[trigger] s[i] <= '9' {
                assert('0' <= s[s.len() - 1] <= '9');
                assert(number_of(head) is None);
                assert(head.len() > 0);
                assert forall|i: int| 0 <= i < head.len() implies '0' <= #[trigger] head[i] <= '9' by {
                    assert(head[i] == s[i]);
                }
            }
        }
    }
}

/// A method that has none of the four names is refused by its name, whatever it is given.
pub proof fn lemma_other_methods_are_unknown(value: PipeView, method: Seq<char>)
    requires
        method_name(method) != "split"@,
        method_name(method) != "last"@,
        method_name(method) != "slug"@,
        method_name(method) != "truncate"@,
    ensures
        applied(value, method) == Err::<PipeView, PipeFault>(
            PipeFault::UnknownMethod(method_name(method)),
        ),
{
}

/// `slug` makes a text of letters and digits small, and puts one dash for whatever stands between
/// two such texts; what stands before the first or behind the last is left out.
pub proof fn lemma_slug(method: Seq<char>, a: Seq<char>, between: Seq<char>, b: Seq<char>)
    requires
        method_name(method) == "slug"@,
        forall|i: int| 0 <= i < a.len() ==> is_letter_or_digit(#[trigger] a[i]),
        forall|i: int| 0 <= i < b.len() ==> is_letter_or_digit(#[trigger] b[i]),
        forall|i: int| 0 <= i < between.len() ==> !is_letter_or_digit(#[trigger] between[i]),
        between.len() > 0,
    ensures
        applied(PipeView::Text(a), method) == Ok::<PipeView, PipeFault>(
            PipeView::Text(a.map_values(|c: char| ascii_lower(c))),
        ),
        applied(PipeView::Text(a + between + b), method) == Ok::<PipeView, PipeFault>(
            PipeView::Text(
                if a.len() > 0 && b.len() > 0 {
                    a.map_values(|c: char| ascii_lower(c)) + "-"@ + b.map_values(
                        |c: char| ascii_lower(c),
                    )
                } else if a.len() > 0 {
                    a.map_values(|c: char| ascii_lower(c))
                } else {
                    b.map_values(|c: char| ascii_lower(c))
                },
            ),
        ),
{
    reveal_strlit("split");
    reveal_strlit("last");
    reveal_strlit("slug");
    reveal_strlit("-");
    assert("split"@.len() != "slug"@.len());
    assert("last"@[0] != "slug"@[0]);
    lemma_slug_of_a_word(a);
    lemma_slug_of_a_word(b);
    lemma_slug_of_parts(a, between, b);
    assert(a.map_values(|c: char| ascii_lower(c)).push('-') + b.map_values(
        |c: char| ascii_lower(c),
    ) =~= a.map_values(|c: char| ascii_lower(c)) + "-"@ + b.map_values(|c: char| ascii_lower(c)));
}

/// Whether a character is one of those that a slug keeps.
pub open spec fn is_letter_or_digit(c: char) -> bool {
    'a' <= c <= 'z' || 'A' <= c <= 'Z' || '0' <= c <= '9'
}

proof fn lemma_slug_of_a_word(a: Seq<char>)
    requires
        forall|i: int| 0 <= i < a.len() ==> is_letter_or_digit(#[trigger] a[i]),
    ensures
        slug_of(a) == a.map_values(|c: char| ascii_lower(c)),
    decreases a.len(),
{
    if a.len() > 0 {
        let head = a.drop_last();
        assert forall|i: int| 0 <= i < head.len() implies is_letter_or_digit(#[trigger] head[i]) by {
            assert(head[i] == a[i]);
        }
        lemma_slug_of_a_word(head);
        assert(is_letter_or_digit(a[a.len() - 1]));
        if a.len() >= 2 {
            assert(is_letter_or_digit(a[a.len() - 2]));
        }
        assert(slug_of(a) =~= a.map_values(|c: char| ascii_lower(c)));
    } else {
        assert(slug_of(a) =~= a.map_values(|c: char| ascii_lower(c)));
    }
}

/// What stands between two texts, if it holds neither a letter nor a digit, is one dash in the
/// slug of the whole, unless there is nothing on one side of it.
pub proof fn lemma_slug_of_parts(a: Seq<char>, between: Seq<char>, b: Seq<char>)
    requires
        between.len() > 0,
        forall|i: int| 0 <= i < between.len() ==> !is_letter_or_digit(#[trigger] between[i]),
    ensures
        slug_of(a + between + b) == if slug_of(a).len() == 0 {
            slug_of(b)
        } else if slug_of(b).len() == 0 {
            slug_of(a)
        } else {
            slug_of(a).push('-') + slug_of(b)
        },
    decreases b.len(),
{
    let whole = a + between + b;
    if b.len() == 0 {
        assert(whole =~= a + between);
        lemma_slug_drops_the_end(a, between);
        assert(slug_of(b) =~= Seq::<char>::empty());
        assert(slug_of(a).len() == 0 ==> slug_of(a) =~= Seq::<char>::empty());
    } else {
        let head = b.drop_last();
        lemma_slug_of_parts(a, between, head);
        assert(whole.drop_last() =~= a + between + head);
        let c = b.last();
        if is_slug_char(c) {
            if head.len() == 0 {
                assert(whole[whole.len() - 2] == between[between.len() - 1]);
                assert(slug_of(head) =~= Seq::<char>::empty());
                assert(slug_of(b) =~= Seq::<char>::empty().push(ascii_lower(c)));
            } else {
                assert(whole[whole.len() - 2] == b[b.len() - 2]);
            }
            if slug_of(a).len() == 0 {
                assert(slug_of(whole) =~= slug_of(b));
            } else {
                assert(slug_of(b).len() > 0);
                assert(slug_of(whole) =~= slug_of(a).push('-') + slug_of(b));
            }
        }
    }
}

proof fn lemma_slug_drops_the_end(a: Seq<char>, between: Seq<char>)
    requires
        forall|i: int| 0 <= i < between.len() ==> !is_letter_or_digit(#[trigger] between[i]),
    ensures
        slug_of(a + between) == slug_of(a),
    decreases between.len(),
{
    if between.len() == 0 {
        assert(a + between =~= a);
    } else {
        let head = between.drop_last();
        assert forall|i: int| 0 <= i < head.len() implies !is_letter_or_digit(#[trigger] head[i]) by {
            assert(head[i] == between[i]);
        }
        lemma_slug_drops_the_end(a, head);
        assert((a + between).drop_last() =~= a + head);
        assert(!is_letter_or_digit(between[between.len() - 1]));
    }
}

/// The errors of expressions name what is wrong with them.
pub proof fn lemma_pipe_faults_name_what_is_wrong(fault: PipeFault)
    ensures
        match fault {
            PipeFault::UnknownMethod(name) => name.is_suffix_of(pipe_fault_text(fault)),
            PipeFault::WrongUse(method) => method.is_suffix_of(pipe_fault_text(fault)),
            PipeFault::ListResult(expression) => expression.is_suffix_of(pipe_fault_text(fault)),
        },
{
    match fault {
        PipeFault::UnknownMethod(name) => {
            let t = "未知工作流方法："@ + name;
            assert(t.subrange(t.len() - name.len(), t.len() as int) =~= name);
        },
        PipeFault::WrongUse(name) => {
            let t = "工作流方法不能用于该值："@ + name;
            assert(t.subrange(t.len() - name.len(), t.len() as int) =~= name);
        },
        PipeFault::ListResult(name) => {
            let t = "工作流表达式的最终结果是数组："@ + name;
            assert(t.subrange(t.len() - name.len(), t.len() as int) =~= name);
        },
    }
}

} // verus!
