//! Signatures of callables: their parameters, how many arguments they take, and how they are shown.

use vstd::prelude::*;
use vstd::slice::slice_subrange;
use vstd::slice::slice_to_vec;
use vstd::string::*;

use crate::provider;
use crate::symbols::ProjectSymbol;
use crate::symbols::ProjectSymbolView;
use crate::symbols::RuntimeParameter;
use crate::symbols::RuntimeParameterView;
use crate::symbols::RuntimeSignature;
use crate::symbols::RuntimeSignatureView;
use crate::symbols::RuntimeSymbol;
use crate::symbols::RuntimeSymbolView;
use crate::text;

verus! {

/// Where the reading of quoted source stands: which quote is open, and whether the next character
/// is escaped.
pub struct Quoting {
    pub quote: Option<char>,
    pub escaped: bool,
}

/// Nothing quoted.
pub open spec fn unquoted() -> Quoting {
    Quoting { quote: None, escaped: false }
}

/// The quoting behind a character that stands within a quote.
pub open spec fn within(quoting: Quoting, c: char) -> Quoting {
    if quoting.escaped {
        Quoting { escaped: false, ..quoting }
    } else if c == '\\' {
        Quoting { escaped: true, ..quoting }
    } else if Some(c) == quoting.quote {
        unquoted()
    } else {
        quoting
    }
}

/// The parenthesis, from index `at` on, that closes the last of `depth` open ones; those within
/// quotes do not count.
pub open spec fn closing_paren(s: Seq<char>, at: int, depth: nat, quoting: Quoting) -> Option<int>
    decreases s.len() - at,
{
    if at >= s.len() || at < 0 {
        None
    } else {
        let c = s[at];
        if quoting.quote is Some {
            closing_paren(s, at + 1, depth, within(quoting, c))
        } else if c == '\'' || c == '"' {
            closing_paren(s, at + 1, depth, Quoting { quote: Some(c), ..quoting })
        } else if c == '(' {
            closing_paren(s, at + 1, depth + 1, quoting)
        } else if c == ')' {
            if depth == 0 {
                None
            } else if depth == 1 {
                Some(at)
            } else {
                closing_paren(s, at + 1, (depth - 1) as nat, quoting)
            }
        } else {
            closing_paren(s, at + 1, depth, quoting)
        }
    }
}

fn find_closing(s: &[char], open: usize) -> (r: Option<usize>)
    requires
        open <= s@.len(),
    ensures
        match r {
            Some(i) => closing_paren(s@, open as int, 0, unquoted()) == Some(i as int) && open <= i
                < s@.len() && s@[i as int] == ')',
            None => closing_paren(s@, open as int, 0, unquoted()) is None,
        },
{
    let n: usize = s.len();
    let mut depth: usize = 0;
    let mut quote: Option<char> = None;
    let mut escaped: bool = false;
    let mut at: usize = open;
    let ghost goal = closing_paren(s@, open as int, 0, unquoted());
    while at < n
        invariant
            n == s@.len(),
            open <= at <= n,
            depth <= at - open,
            escaped ==> quote is Some,
            goal == closing_paren(s@, open as int, 0, unquoted()),
            goal == closing_paren(s@, at as int, depth as nat, Quoting { quote, escaped }),
        decreases n - at,
    {
        let c: char = s[at];
        if let Some(active) = quote {
            if escaped {
                escaped = false;
            } else if c == '\\' {
                escaped = true;
            } else if c == active {
                quote = None;
            }
        } else if c == '\'' || c == '"' {
            quote = Some(c);
        } else if c == '(' {
            depth += 1;
        } else if c == ')' {
            if depth == 0 {
                return None;
            }
            if depth == 1 {
                return Some(at);
            }
            depth -= 1;
        }
        at += 1;
    }
    None
}

/// The byte offset of the parenthesis that closes the one at a byte offset.
pub fn matching_paren(source: &str, open: usize) -> (r: Option<usize>)
    requires
        text::char_boundary(source@, open as nat),
    ensures
        ({
            let found = closing_paren(
                source@,
                text::fitting(source@, open as int) as int,
                0,
                unquoted(),
            );
            match r {
                Some(offset) => found is Some && offset == text::utf8_len(source@.take(found->0)),
                None => found is None,
            }
        }),
{
    let chars = text::chars_of(source);
    let size: usize = text::byte_len(source);
    let (from, bytes) = text::fit(&chars, open);
    match find_closing(&chars, from) {
        None => None,
        Some(i) => Some(text::offset_of(&chars, i)),
    }
}

/// The parts of a parameter list, from index `at` on, where the current part began at `start`:
/// only commas outside of quotes and brackets part it.
pub open spec fn parameter_parts(
    s: Seq<char>,
    start: int,
    at: int,
    nesting: nat,
    quoting: Quoting,
) -> Seq<Seq<char>>
    decreases s.len() - at,
{
    if at >= s.len() || at < 0 {
        seq![s.skip(start)]
    } else {
        let c = s[at];
        if quoting.quote is Some {
            parameter_parts(s, start, at + 1, nesting, within(quoting, c))
        } else if c == '\'' || c == '"' {
            parameter_parts(s, start, at + 1, nesting, Quoting { quote: Some(c), ..quoting })
        } else if c == '(' || c == '[' || c == '{' {
            parameter_parts(s, start, at + 1, nesting + 1, quoting)
        } else if c == ')' || c == ']' || c == '}' {
            parameter_parts(
                s,
                start,
                at + 1,
                if nesting > 0 {
                    (nesting - 1) as nat
                } else {
                    0
                },
                quoting,
            )
        } else if c == ',' && nesting == 0 {
            seq![s.subrange(start, at)] + parameter_parts(s, at + 1, at + 1, nesting, quoting)
        } else {
            parameter_parts(s, start, at + 1, nesting, quoting)
        }
    }
}

/// The parts of a parameter list.
pub open spec fn parameters_of(s: Seq<char>) -> Seq<Seq<char>> {
    parameter_parts(s, 0, 0, 0, unquoted())
}

fn split_parameters(s: &[char]) -> (r: Vec<Vec<char>>)
    ensures
        text::runs(r@) == parameters_of(s@),
{
    let n: usize = s.len();
    let mut out: Vec<Vec<char>> = Vec::new();
    let mut start: usize = 0;
    let mut nesting: usize = 0;
    let mut quote: Option<char> = None;
    let mut escaped: bool = false;
    let mut at: usize = 0;
    let ghost goal = parameters_of(s@);
    assert(text::runs(out@) + goal =~= goal);
    while at < n
        invariant
            n == s@.len(),
            start <= at <= n,
            nesting <= at,
            escaped ==> quote is Some,
            goal == parameters_of(s@),
            goal == text::runs(out@) + parameter_parts(
                s@,
                start as int,
                at as int,
                nesting as nat,
                Quoting { quote, escaped },
            ),
        decreases n - at,
    {
        let c: char = s[at];
        if let Some(active) = quote {
            if escaped {
                escaped = false;
            } else if c == '\\' {
                escaped = true;
            } else if c == active {
                quote = None;
            }
        } else if c == '\'' || c == '"' {
            quote = Some(c);
        } else if c == '(' || c == '[' || c == '{' {
            nesting += 1;
        } else if c == ')' || c == ']' || c == '}' {
            nesting = nesting.saturating_sub(1);
        } else if c == ',' && nesting == 0 {
            let ghost before = text::runs(out@);
            let part = slice_to_vec(slice_subrange(s, start, at));
            assert(part@ =~= s@.subrange(start as int, at as int));
            out.push(part);
            assert(text::runs(out@) =~= before.push(part@));
            proof {
                let more = parameter_parts(
                    s@,
                    at + 1,
                    at + 1,
                    nesting as nat,
                    Quoting { quote, escaped },
                );
                assert(before + (seq![part@] + more) =~= before.push(part@) + more);
            }
            start = at + 1;
        }
        at += 1;
    }
    let ghost before = text::runs(out@);
    let part = slice_to_vec(slice_subrange(s, start, n));
    assert(part@ =~= s@.skip(start as int));
    out.push(part);
    assert(text::runs(out@) =~= before + seq![part@]);
    out
}

/// The parts of a parameter list: only commas outside of quotes and brackets part it.
pub fn split_signature_parameters(parameters: &str) -> (r: Vec<String>)
    ensures
        text::texts(r@) == parameters_of(parameters@),
{
    let parts = split_parameters(&text::chars_of(parameters));
    let mut out: Vec<String> = Vec::new();
    let mut i: usize = 0;
    while i < parts.len()
        invariant
            i <= parts@.len(),
            out@.len() == i,
            forall|k: int| 0 <= k < i ==> (#[trigger] out@[k])@ == parts@[k]@,
        decreases parts@.len() - i,
    {
        out.push(text::to_string(&parts[i]));
        i += 1;
    }
    assert(text::texts(out@) =~= text::runs(parts@));
    out
}

/// How many arguments a callable takes.
#[derive(Clone, Copy, Debug, PartialEq, Eq, Structural)]
pub struct ParameterArity {
    pub required_count: usize,
    pub maximum_count: usize,
    pub variadic: bool,
}

/// How many arguments some parameters take. Blank ones do not count; one with a default, or that
/// takes the rest, is not required.
pub struct Arity {
    pub required: nat,
    pub maximum: nat,
    pub variadic: bool,
}

/// How many arguments some parameters take.
pub open spec fn arity_of(parameters: Seq<Seq<char>>) -> Arity
    decreases parameters.len(),
{
    if parameters.len() == 0 {
        Arity { required: 0, maximum: 0, variadic: false }
    } else {
        let before = arity_of(parameters.drop_last());
        let parameter = text::trim(parameters.last());
        let rest = text::contains_text(parameter, "..."@);
        if parameter.len() == 0 {
            before
        } else {
            Arity {
                required: before.required + if !parameter.contains('=') && !rest {
                    1nat
                } else {
                    0
                },
                maximum: before.maximum + 1,
                variadic: before.variadic || rest,
            }
        }
    }
}

/// The parameter list of a shown signature: what stands in its first parentheses.
pub open spec fn parameter_list(detail: Seq<char>) -> Option<Seq<char>> {
    match text::char_from(detail, '(', 0) {
        None => None,
        Some(open) => match closing_paren(detail, open, 0, unquoted()) {
            None => None,
            Some(close) => Some(detail.subrange(open + 1, close)),
        },
    }
}

/// How many arguments a callable takes by its shown signature; none where it shows no parameters.
pub open spec fn shown_arity(detail: Seq<char>) -> Arity {
    match parameter_list(detail) {
        None => Arity { required: 0, maximum: 0, variadic: false },
        Some(parameters) => if text::trim(parameters).len() == 0 {
            Arity { required: 0, maximum: 0, variadic: false }
        } else {
            arity_of(parameters_of(parameters))
        },
    }
}

proof fn lemma_arity_bounds(parameters: Seq<Seq<char>>)
    ensures
        arity_of(parameters).required <= arity_of(parameters).maximum <= parameters.len(),
    decreases parameters.len(),
{
    if parameters.len() > 0 {
        lemma_arity_bounds(parameters.drop_last());
    }
}

/// No callable requires more arguments than it may be given.
pub proof fn law_required_within_maximum(detail: Seq<char>)
    ensures
        shown_arity(detail).required <= shown_arity(detail).maximum,
{
    match parameter_list(detail) {
        Some(parameters) => {
            lemma_arity_bounds(parameters_of(parameters));
        },
        None => {},
    }
}

/// How many arguments a callable takes by its shown signature.
pub fn signature_counts_from_detail(detail: &str) -> (r: ParameterArity)
    ensures
        r.required_count == shown_arity(detail@).required,
        r.maximum_count == shown_arity(detail@).maximum,
        r.variadic == shown_arity(detail@).variadic,
{
    let none = ParameterArity { required_count: 0, maximum_count: 0, variadic: false };
    let chars = text::chars_of(detail);
    let open: usize = match text::find_char(&chars, '(', 0) {
        None => {
            return none;
        },
        Some(open) => open,
    };
    let close: usize = match find_closing(&chars, open) {
        None => {
            return none;
        },
        Some(close) => close,
    };
    proof {
        assert(close > open) by {
            text::lemma_char_from(detail@, '(', 0);
        }
    }
    let list = slice_subrange(&chars, open + 1, close);
    if text::trimmed(list).len() == 0 {
        return none;
    }
    let parts = split_parameters(list);
    let ghost all = text::runs(parts@);
    let mut required: usize = 0;
    let mut maximum: usize = 0;
    let mut variadic: bool = false;
    let dots = text::chars_of("...");
    let mut i: usize = 0;
    assert(all.take(0) =~= Seq::<Seq<char>>::empty());
    while i < parts.len()
        invariant
            i <= parts@.len(),
            all == text::runs(parts@),
            dots@ == "..."@,
            required <= i,
            maximum <= i,
            required == arity_of(all.take(i as int)).required,
            maximum == arity_of(all.take(i as int)).maximum,
            variadic == arity_of(all.take(i as int)).variadic,
        decreases parts@.len() - i,
    {
        assert(all.take(i + 1).drop_last() =~= all.take(i as int));
        assert(all.take(i + 1).last() == parts@[i as int]@);
        let parameter = text::trimmed(&parts[i]);
        if parameter.len() > 0 {
            maximum += 1;
            let rest = text::contains(parameter, &dots);
            if rest {
                variadic = true;
            }
            if !text::holds(parameter, '=') && !rest {
                required += 1;
            }
        }
        i += 1;
    }
    assert(all.take(i as int) =~= all);
    ParameterArity { required_count: required, maximum_count: maximum, variadic }
}

/// How many digits stand in `s` from its start on.
pub open spec fn digits_len(s: Seq<char>) -> nat
    decreases s.len(),
{
    if s.len() > 0 && '0' <= s[0] && s[0] <= '9' {
        1 + digits_len(s.skip(1))
    } else {
        0
    }
}

/// What stands for a placeholder: the default behind its colon, where it has one.
pub open spec fn placeholder_default(body: Seq<char>) -> Seq<char> {
    match text::split_at_first(body, ":"@) {
        Some((_, default)) => default,
        None => Seq::empty(),
    }
}

/// A snippet whose placeholders are replaced by their defaults: `$` and digits by nothing, and
/// `${..}` by what stands behind the colon in it. A placeholder that is not closed goes on to the
/// end.
pub open spec fn plain_snippet(s: Seq<char>) -> Seq<char>
    decreases s.len(),
{
    if s.len() == 0 {
        Seq::empty()
    } else if s[0] != '$' {
        seq![s[0]] + plain_snippet(s.skip(1))
    } else if s.len() > 1 && s[1] == '{' {
        match text::char_from(s, '}', 2) {
            Some(end) => if 2 <= end < s.len() {
                placeholder_default(s.subrange(2, end)) + plain_snippet(s.skip(end + 1))
            } else {
                Seq::empty()
            },
            None => placeholder_default(s.skip(2)),
        }
    } else {
        let rest = s.skip(1);
        if digits_len(rest) <= rest.len() {
            plain_snippet(rest.skip(digits_len(rest) as int))
        } else {
            Seq::empty()
        }
    }
}

proof fn lemma_digits_len(s: Seq<char>)
    ensures
        digits_len(s) <= s.len(),
    decreases s.len(),
{
    if s.len() > 0 {
        lemma_digits_len(s.skip(1));
    }
}

/// A snippet whose placeholders are replaced by their defaults.
pub fn strip_snippet_placeholders(snippet: &str) -> (r: String)
    ensures
        r@ == plain_snippet(snippet@),
{
    let chars = text::chars_of(snippet);
    let n: usize = chars.len();
    let mut out: Vec<char> = Vec::new();
    let mut at: usize = 0;
    let ghost goal = plain_snippet(snippet@);
    assert(chars@.skip(0) =~= chars@);
    assert(out@ + goal =~= goal);
    while at < n
        invariant
            n == chars@.len(),
            at <= n,
            goal == out@ + plain_snippet(chars@.skip(at as int)),
        decreases n - at,
    {
        let ghost before = out@;
        let ghost rest = chars@.skip(at as int);
        assert(rest[0] == chars@[at as int]);
        if chars[at] != '$' {
            out.push(chars[at]);
            at += 1;
            assert(rest.skip(1) =~= chars@.skip(at as int));
            assert(before + (seq![rest[0]] + plain_snippet(rest.skip(1))) =~= out@
                + plain_snippet(chars@.skip(at as int)));
        } else if n - at > 1 && chars[at + 1] == '{' {
            assert(rest[1] == chars@[at + 1]);
            let tail = slice_subrange(&chars, at, n);
            assert(tail@ =~= rest);
            match text::find_char(tail, '}', 2) {
                Some(end) => {
                    let body = slice_subrange(tail, 2, end);
                    match text::cut(body, ":") {
                        Some((_, default)) => {
                            out.extend_from_slice(default);
                            assert(out@ =~= before + placeholder_default(body@));
                        },
                        None => {
                            assert(out@ =~= before + placeholder_default(body@));
                        },
                    }
                    at = at + end + 1;
                    assert(rest.skip(end + 1) =~= chars@.skip(at as int));
                    assert(before + (placeholder_default(body@) + plain_snippet(
                        rest.skip(end + 1),
                    )) =~= out@ + plain_snippet(chars@.skip(at as int)));
                },
                None => {
                    let m: usize = tail.len();
                    let body = slice_subrange(tail, 2, m);
                    assert(body@ =~= rest.skip(2));
                    match text::cut(body, ":") {
                        Some((_, default)) => {
                            out.extend_from_slice(default);
                            assert(out@ =~= before + placeholder_default(body@));
                        },
                        None => {
                            assert(out@ =~= before + placeholder_default(body@));
                        },
                    }
                    at = n;
                    assert(chars@.skip(at as int) =~= Seq::<char>::empty());
                    assert(out@ + Seq::<char>::empty() =~= out@);
                },
            }
        } else {
            let ghost digits = rest.skip(1);
            proof {
                lemma_digits_len(digits);
                if n - at > 1 {
                    assert(rest[1] == chars@[at + 1]);
                }
            }
            let mut k: usize = at + 1;
            assert(digits =~= chars@.skip(k as int));
            while k < n && '0' <= chars[k] && chars[k] <= '9'
                invariant
                    n == chars@.len(),
                    at < k <= n,
                    digits == chars@.skip(at + 1),
                    digits_len(digits) == (k - at - 1) + digits_len(chars@.skip(k as int)),
                decreases n - k,
            {
                assert(chars@.skip(k as int).skip(1) =~= chars@.skip(k + 1));
                assert(chars@.skip(k as int)[0] == chars@[k as int]);
                k += 1;
            }
            assert(digits.skip(digits_len(digits) as int) =~= chars@.skip(k as int)) by {
                if k < n {
                    assert(chars@.skip(k as int)[0] == chars@[k as int]);
                }
            }
            at = k;
        }
    }
    assert(chars@.skip(at as int) =~= Seq::<char>::empty());
    assert(out@ + Seq::<char>::empty() =~= out@);
    text::to_string(&out)
}

/// What stands where a text may be missing.
pub open spec fn or_empty(value: Option<Seq<char>>) -> Seq<char> {
    match value {
        Some(text) => text,
        None => Seq::empty(),
    }
}

/// How a return type is shown behind a parameter list.
pub open spec fn shown_return(return_type: Option<Seq<char>>) -> Seq<char> {
    match return_type {
        Some(written) => ": "@ + written,
        None => Seq::empty(),
    }
}

/// The return type of a signature: the declared one, else the documented one.
pub open spec fn returned(signature: RuntimeSignatureView) -> Option<Seq<char>> {
    match signature.declared_return_type {
        Some(declared) => Some(declared),
        None => signature.phpdoc_return_type,
    }
}

/// How a parameter is shown.
pub open spec fn shown_parameter(parameter: RuntimeParameterView) -> Seq<char> {
    or_empty(parameter.declared_type) + " $"@ + text::strip_start(parameter.name, '$')
        + if parameter.optional {
        " = …"@
    } else {
        Seq::empty()
    }
}

/// How parameters are shown.
pub open spec fn shown_parameters(parameters: Seq<RuntimeParameterView>) -> Seq<char> {
    text::join(parameters.map_values(|p: RuntimeParameterView| shown_parameter(p)), ", "@)
}

/// How a signature is shown.
pub open spec fn shown_signature(signature: RuntimeSignatureView) -> Seq<char> {
    "("@ + shown_parameters(signature.parameters) + ")"@ + shown_return(returned(signature))
}

/// How a symbol of the runtime is shown.
pub open spec fn runtime_detail(symbol: RuntimeSymbolView) -> Seq<char> {
    symbol.name + match symbol.signature {
        Some(signature) => shown_signature(signature),
        None => Seq::empty(),
    } + " • "@ + symbol.origin
}

fn put_return(out: &mut Vec<char>, return_type: &Option<String>)
    ensures
        final(out)@ == old(out)@ + shown_return(provider::optional_text(*return_type)),
{
    match return_type {
        Some(written) => {
            text::put(out, ": ");
            text::put(out, written);
            assert(out@ =~= old(out)@ + (": "@ + written@));
        },
        None => {
            assert(out@ =~= old(out)@ + Seq::<char>::empty());
        },
    }
}

fn put_returned(out: &mut Vec<char>, signature: &RuntimeSignature)
    ensures
        final(out)@ == old(out)@ + shown_return(returned(signature@)),
{
    match &signature.declared_return_type {
        Some(_) => put_return(out, &signature.declared_return_type),
        None => put_return(out, &signature.phpdoc_return_type),
    }
}

fn put_bare_name(out: &mut Vec<char>, name: &str)
    ensures
        final(out)@ == old(out)@ + text::strip_start(name@, '$'),
{
    let chars = text::chars_of(name);
    out.extend_from_slice(text::stripped_start(&chars, '$'));
    assert(out@ =~= old(out)@ + text::strip_start(name@, '$'));
}

fn show_parameter(parameter: &RuntimeParameter) -> (r: Vec<char>)
    ensures
        r@ == shown_parameter(parameter@),
{
    let mut out: Vec<char> = Vec::new();
    if let Some(declared) = &parameter.declared_type {
        text::put(&mut out, declared);
    }
    assert(out@ =~= or_empty(parameter@.declared_type));
    text::put(&mut out, " $");
    put_bare_name(&mut out, &parameter.name);
    if parameter.optional {
        text::put(&mut out, " = …");
    }
    assert(out@ =~= shown_parameter(parameter@));
    out
}

/// How a symbol of the runtime is shown.
pub fn runtime_signature_detail(symbol: &RuntimeSymbol) -> (r: String)
    ensures
        r@ == runtime_detail(symbol@),
{
    let mut out = text::chars_of(&symbol.name);
    if let Some(signature) = &symbol.signature {
        let mut parts: Vec<Vec<char>> = Vec::new();
        let mut i: usize = 0;
        while i < signature.parameters.len()
            invariant
                i <= signature.parameters@.len(),
                parts@.len() == i,
                forall|k: int|
                    0 <= k < i ==> (#[trigger] parts@[k])@ == shown_parameter(
                        signature.parameters@[k]@,
                    ),
            decreases signature.parameters@.len() - i,
        {
            parts.push(show_parameter(&signature.parameters[i]));
            i += 1;
        }
        assert(text::runs(parts@) =~= signature@.parameters.map_values(
            |p: RuntimeParameterView| shown_parameter(p),
        ));
        text::put(&mut out, "(");
        out.extend_from_slice(&text::joined(&parts, ", "));
        text::put(&mut out, ")");
        put_returned(&mut out, signature);
        assert(out@ =~= symbol@.name + shown_signature(signature@));
    } else {
        assert(out@ =~= symbol@.name + Seq::<char>::empty());
    }
    text::put(&mut out, " • ");
    text::put(&mut out, &symbol.origin);
    text::to_string(&out)
}

/// The argument that a call is first written with for a parameter.
pub open spec fn call_argument(parameter: RuntimeParameterView) -> Seq<char> {
    "$"@ + if parameter.variadic {
        "..."@
    } else {
        Seq::empty()
    } + text::strip_start(parameter.name, '$')
}

/// The call that is first written for a symbol of the runtime; none where its signature is not
/// known.
pub open spec fn runtime_call(symbol: RuntimeSymbolView) -> Option<Seq<char>> {
    match symbol.signature {
        Some(signature) => Some(
            symbol.name + "("@ + text::join(
                signature.parameters.map_values(|p: RuntimeParameterView| call_argument(p)),
                ", "@,
            ) + ")"@,
        ),
        None => None,
    }
}

fn show_argument(parameter: &RuntimeParameter) -> (r: Vec<char>)
    ensures
        r@ == call_argument(parameter@),
{
    let mut out = text::chars_of("$");
    if parameter.variadic {
        text::put(&mut out, "...");
    }
    put_bare_name(&mut out, &parameter.name);
    assert(out@ =~= call_argument(parameter@));
    out
}

/// The call that is first written for a symbol of the runtime.
pub fn runtime_call_insert_text(symbol: &RuntimeSymbol) -> (r: Option<String>)
    ensures
        provider::optional_text(r) == runtime_call(symbol@),
{
    match &symbol.signature {
        None => None,
        Some(signature) => {
            let mut parts: Vec<Vec<char>> = Vec::new();
            let mut i: usize = 0;
            while i < signature.parameters.len()
                invariant
                    i <= signature.parameters@.len(),
                    parts@.len() == i,
                    forall|k: int|
                        0 <= k < i ==> (#[trigger] parts@[k])@ == call_argument(
                            signature.parameters@[k]@,
                        ),
                decreases signature.parameters@.len() - i,
            {
                parts.push(show_argument(&signature.parameters[i]));
                i += 1;
            }
            assert(text::runs(parts@) =~= signature@.parameters.map_values(
                |p: RuntimeParameterView| call_argument(p),
            ));
            let mut out = text::chars_of(&symbol.name);
            text::put(&mut out, "(");
            out.extend_from_slice(&text::joined(&parts, ", "));
            text::put(&mut out, ")");
            let r = text::to_string(&out);
            assert(r@ =~= runtime_call(symbol@)->0);
            Some(r)
        },
    }
}

/// How a method is shown by its name, its parameters and its return type.
pub open spec fn shown_method(symbol: ProjectSymbolView) -> Seq<char> {
    symbol.name + match symbol.parameters {
        Some(parameters) => parameters,
        None => "()"@,
    } + shown_return(symbol.return_type)
}

/// How a method of the project is shown.
pub open spec fn method_detail(symbol: ProjectSymbolView) -> Seq<char> {
    shown_method(symbol) + " • Project"@
}

/// How a method is shown by its name, its parameters and its return type.
pub fn show_method(symbol: &ProjectSymbol) -> (r: Vec<char>)
    ensures
        r@ == shown_method(symbol@),
{
    let mut out = text::chars_of(&symbol.name);
    match &symbol.parameters {
        Some(parameters) => text::put(&mut out, parameters),
        None => text::put(&mut out, "()"),
    }
    put_return(&mut out, &symbol.return_type);
    out
}

/// How a method of the project is shown.
pub fn project_method_detail(symbol: &ProjectSymbol) -> (r: String)
    ensures
        r@ == method_detail(symbol@),
{
    let mut out = show_method(symbol);
    text::put(&mut out, " • Project");
    text::to_string(&out)
}

} // verus!
