//! `${VAR}` templating.

use vstd::prelude::*;

use crate::error::RpcError;
use crate::text::{chars_of, str_eq};

verus! {

/// What the variables in `vars` stand for. The first entry of a name counts.
pub open spec fn bindings(vars: Seq<(String, String)>) -> Map<Seq<char>, Seq<char>>
    decreases vars.len(),
{
    if vars.len() == 0 {
        Map::empty()
    } else {
        bindings(vars.drop_first()).insert(vars[0].0@, vars[0].1@)
    }
}

/// The environment variables that templates may refer to.
#[derive(Debug)]
pub struct Environment {
    vars: Vec<(String, String)>,
}

impl View for Environment {
    type V = Map<Seq<char>, Seq<char>>;

    closed spec fn view(&self) -> Map<Seq<char>, Seq<char>> {
        bindings(self.vars@)
    }
}

impl Environment {
    /// The environment of these names and values. The first entry of a name
    /// counts.
    pub fn new(vars: Vec<(String, String)>) -> (r: Self)
        ensures
            r@ == bindings(vars@),
    {
        Environment { vars }
    }

    /// The value of a variable, or `None` if it is unset.
    pub fn lookup(&self, name: &str) -> (r: Option<&String>)
        ensures
            r is Some <==> self@.contains_key(name@),
            r matches Some(value) ==> value@ == self@[name@],
    {
        let mut i: usize = 0;
        assert(self.vars@.skip(0) =~= self.vars@);
        while i < self.vars.len()
            invariant
                i <= self.vars@.len(),
                self@.contains_key(name@) == bindings(self.vars@.skip(i as int)).contains_key(
                    name@,
                ),
                self@[name@] == bindings(self.vars@.skip(i as int))[name@],
            decreases self.vars.len() - i,
        {
            assert(self.vars@.skip(i as int).drop_first() =~= self.vars@.skip(i + 1));
            if str_eq(self.vars[i].0.as_str(), name) {
                return Some(&self.vars[i].1);
            }
            i += 1;
        }
        None
    }
}

/// Why a template cannot be expanded.
pub enum TemplateFault {
    /// A reference is opened and never closed.
    Unterminated,
    /// A reference names a variable that is unset.
    Unset(Seq<char>),
}

/// The first position from `from` on where a reference opens, or the length.
pub open spec fn opening(s: Seq<char>, from: nat) -> nat
    decreases s.len() - from,
{
    if from >= s.len() {
        s.len()
    } else if s[from as int] == '$' && from + 1 < s.len() && s[(from + 1) as int] == '{' {
        from
    } else {
        opening(s, from + 1)
    }
}

/// The first position from `from` on that holds a closing brace, or the length.
pub open spec fn closing(s: Seq<char>, from: nat) -> nat
    decreases s.len() - from,
{
    if from >= s.len() {
        s.len()
    } else if s[from as int] == '}' {
        from
    } else {
        closing(s, from + 1)
    }
}

/// `s` with every `${VAR}` replaced by the value of `VAR`. The leftmost fault
/// decides when there is one.
pub open spec fn expanded(s: Seq<char>, env: Map<Seq<char>, Seq<char>>) -> Result<
    Seq<char>,
    TemplateFault,
>
    decreases s.len(),
{
    let open = opening(s, 0);
    let close = closing(s, open + 2);
    if open >= s.len() {
        Ok(s)
    } else if close >= s.len() {
        Err(TemplateFault::Unterminated)
    } else {
        let name = s.subrange((open + 2) as int, close as int);
        if !env.contains_key(name) {
            Err(TemplateFault::Unset(name))
        } else {
            match expanded(s.skip((close + 1) as int), env) {
                Ok(rest) => Ok(s.take(open as int) + env[name] + rest),
                Err(fault) => Err(fault),
            }
        }
    }
}

/// The positions that `opening` and `closing` give lie where they looked.
proof fn lemma_positions(s: Seq<char>, from: nat)
    requires
        from <= s.len(),
    ensures
        from <= opening(s, from) <= s.len(),
        opening(s, from) < s.len() ==> opening(s, from) + 2 <= s.len(),
        from <= closing(s, from) <= s.len(),
    decreases s.len() - from,
{
    if from < s.len() {
        lemma_positions(s, from + 1);
    }
}

/// Looking from `pos + from` on is looking in the rest after `pos`.
proof fn lemma_positions_in_rest(s: Seq<char>, pos: nat, from: nat)
    requires
        pos <= s.len(),
    ensures
        pos + from <= s.len() ==> opening(s, pos + from) == pos + opening(s.skip(pos as int), from),
        pos + from <= s.len() ==> closing(s, pos + from) == pos + closing(s.skip(pos as int), from),
    decreases s.len() - from,
{
    if pos + from < s.len() {
        lemma_positions_in_rest(s, pos, from + 1);
    }
}

/// A string as a quoted literal, the way `{:?}` prints it.
pub uninterp spec fn quoted_literal(s: Seq<char>) -> Seq<char>;

/// Prints `s` with `std`'s `Debug` formatting of `str`, through
/// `format!("{:?}")`: a quoted literal with escapes. The contract claims only
/// that the text depends on `s` alone.
#[verifier::external_body]
pub(crate) fn quote_literal(s: &str) -> (r: String)
    ensures
        r@ == quoted_literal(s@),
{
    format!("{:?}", s)
}

/// The configuration error that a fault in the template `input` is reported as.
pub open spec fn fault_words(input: Seq<char>, fault: TemplateFault) -> Seq<char> {
    match fault {
        TemplateFault::Unterminated => "unterminated ${...} in config value: "@ + quoted_literal(
            input,
        ),
        TemplateFault::Unset(name) => "environment variable "@ + name
            + " referenced in config is unset"@,
    }
}

/// What expanding the template `input` comes to.
pub open spec fn expands_to(
    input: Seq<char>,
    env: Map<Seq<char>, Seq<char>>,
    r: Result<String, RpcError>,
) -> bool {
    match expanded(input, env) {
        Ok(text) => r matches Ok(t) && t@ == text,
        Err(fault) => r matches Err(RpcError::Config(m)) && m@ == fault_words(input, fault),
    }
}

fn find_opening(chars: &Vec<char>, from: usize) -> (r: usize)
    requires
        from <= chars@.len(),
    ensures
        r == opening(chars@, from as nat),
{
    let mut i: usize = from;
    while i < chars.len()
        invariant
            i <= chars@.len(),
            opening(chars@, from as nat) == opening(chars@, i as nat),
        decreases chars.len() - i,
    {
        if chars[i] == '$' && i + 1 < chars.len() && chars[i + 1] == '{' {
            return i;
        }
        i += 1;
    }
    i
}

fn find_closing(chars: &Vec<char>, from: usize) -> (r: usize)
    requires
        from <= chars@.len(),
    ensures
        r == closing(chars@, from as nat),
{
    let mut i: usize = from;
    while i < chars.len()
        invariant
            i <= chars@.len(),
            closing(chars@, from as nat) == closing(chars@, i as nat),
        decreases chars.len() - i,
    {
        if chars[i] == '}' {
            return i;
        }
        i += 1;
    }
    i
}

/// Expand every `${VAR}` occurrence in `input` from `env`. Unset variables are
/// a hard error so a missing key never silently degrades to an unauthenticated
/// request.
pub fn expand_env(input: &str, env: &Environment) -> (r: Result<String, RpcError>)
    ensures
        expands_to(input@, env@, r),
{
    let chars = chars_of(input);
    let mut out = String::new();
    let mut pos: usize = 0;
    assert(input@.skip(0) =~= input@);
    loop
        invariant
            chars@ == input@,
            pos <= chars@.len(),
            expanded(input@, env@) == match expanded(input@.skip(pos as int), env@) {
                Ok(rest) => Ok(out@ + rest),
                Err(fault) => Err(fault),
            },
        decreases chars.len() - pos,
    {
        proof {
            lemma_positions(input@, pos as nat);
            lemma_positions_in_rest(input@, pos as nat, 0);
        }
        let ghost rest = input@.skip(pos as int);
        let open = find_opening(&chars, pos);
        if open >= chars.len() {
            out.append(input.substring_char(pos, chars.len()));
            assert(rest =~= input@.subrange(pos as int, input@.len() as int));
            return Ok(out);
        }
        proof {
            lemma_positions(input@, (open + 2) as nat);
            lemma_positions_in_rest(input@, pos as nat, (open + 2 - pos) as nat);
        }
        let close = find_closing(&chars, open + 2);
        if close >= chars.len() {
            let mut message = "unterminated ${...} in config value: ".to_owned();
            message.append(quote_literal(input).as_str());
            return Err(RpcError::Config(message));
        }
        let name = input.substring_char(open + 2, close);
        assert(name@ =~= rest.subrange(open + 2 - pos, close - pos));
        match env.lookup(name) {
            None => {
                let mut message = "environment variable ".to_owned();
                message.append(name);
                message.append(" referenced in config is unset");
                return Err(RpcError::Config(message));
            },
            Some(value) => {
                let ghost before = out@;
                out.append(input.substring_char(pos, open));
                out.append(value.as_str());
                proof {
                    assert(rest.skip(close + 1 - pos) =~= input@.skip(close + 1));
                    assert(rest.take(open - pos) =~= input@.subrange(pos as int, open as int));
                    match expanded(input@.skip(close + 1), env@) {
                        Ok(tail) => {
                            assert(before + (rest.take(open - pos) + env@[name@] + tail) =~= out@
                                + tail);
                        },
                        Err(_) => {},
                    }
                }
                pos = close + 1;
            },
        }
    }
}

/// A text without `${` is its own expansion, whatever the environment.
pub proof fn law_plain_text_is_unchanged(s: Seq<char>, env: Map<Seq<char>, Seq<char>>)
    requires
        forall|i: int| 0 <= i < s.len() - 1 ==> !(#[trigger] s[i] == '$' && s[i + 1] == '{'),
    ensures
        expanded(s, env) == Ok::<Seq<char>, TemplateFault>(s),
{
    lemma_no_opening(s, 0);
}

proof fn lemma_no_opening(s: Seq<char>, from: nat)
    requires
        from <= s.len(),
        forall|i: int| 0 <= i < s.len() - 1 ==> !(#[trigger] s[i] == '$' && s[i + 1] == '{'),
    ensures
        opening(s, from) == s.len(),
    decreases s.len() - from,
{
    if from < s.len() {
        lemma_no_opening(s, from + 1);
    }
}

/// `s` refers to the variable `name` somewhere.
pub open spec fn refers_to(s: Seq<char>, name: Seq<char>) -> bool
    decreases s.len(),
{
    let open = opening(s, 0);
    let close = closing(s, open + 2);
    open < s.len() && close < s.len() && (s.subrange((open + 2) as int, close as int) == name || refers_to(
        s.skip((close + 1) as int),
        name,
    ))
}

/// A text that refers to an unset variable, anywhere, is never expanded: a
/// missing key cannot silently drop out of a request.
pub proof fn law_unset_variable_is_an_error(
    s: Seq<char>,
    name: Seq<char>,
    env: Map<Seq<char>, Seq<char>>,
)
    requires
        refers_to(s, name),
        !env.contains_key(name),
    ensures
        expanded(s, env) is Err,
    decreases s.len(),
{
    let open = opening(s, 0);
    let close = closing(s, open + 2);
    if s.subrange((open + 2) as int, close as int) != name {
        law_unset_variable_is_an_error(s.skip((close + 1) as int), name, env);
    }
}

/// No reference opens inside `s`.
pub open spec fn opens_nothing(s: Seq<char>) -> bool {
    forall|i: int| 0 <= i < s.len() - 1 ==> !(#[trigger] s[i] == '$' && s[i + 1] == '{')
}

proof fn lemma_opening_at(s: Seq<char>, from: nat, at: nat)
    requires
        from <= at,
        at + 1 < s.len(),
        s[at as int] == '$',
        s[at as int + 1] == '{',
        forall|i: int| from <= i < at ==> !(#[trigger] s[i] == '$' && s[i + 1] == '{'),
    ensures
        opening(s, from) == at,
    decreases at - from,
{
    if from < at {
        lemma_opening_at(s, from + 1, at);
    }
}

proof fn lemma_closing_at(s: Seq<char>, from: nat, at: nat)
    requires
        from <= at <= s.len(),
        at < s.len() ==> s[at as int] == '}',
        forall|i: int| from <= i < at ==> #[trigger] s[i] != '}',
    ensures
        closing(s, from) == at,
    decreases at - from,
{
    if from < at {
        lemma_closing_at(s, from + 1, at);
    }
}

/// The leftmost reference is replaced by the value of its variable, what stands
/// before it stays, and what follows is expanded by itself. When the variable
/// is unset, that is the fault, whatever follows.
pub proof fn law_reference_is_replaced_by_its_value(
    before: Seq<char>,
    name: Seq<char>,
    rest: Seq<char>,
    env: Map<Seq<char>, Seq<char>>,
)
    requires
        opens_nothing(before),
        !name.contains('}'),
    ensures
        ({
            let s = before + seq!['$', '{'] + name + seq!['}'] + rest;
            &&& !env.contains_key(name) ==> expanded(s, env) == Err::<Seq<char>, TemplateFault>(
                TemplateFault::Unset(name),
            )
            &&& env.contains_key(name) ==> match expanded(rest, env) {
                Ok(text) => expanded(s, env) == Ok::<Seq<char>, TemplateFault>(
                    before + env[name] + text,
                ),
                Err(fault) => expanded(s, env) == Err::<Seq<char>, TemplateFault>(fault),
            }
        }),
{
    let s = before + seq!['$', '{'] + name + seq!['}'] + rest;
    let open = before.len();
    let close = before.len() + 2 + name.len();
    assert(s[open as int] == '$' && s[open as int + 1] == '{');
    assert forall|i: int| 0 <= i < open implies !(#[trigger] s[i] == '$' && s[i + 1] == '{') by {
        assert(s[i] == before[i]);
        if i + 1 < open {
            assert(s[i + 1] == before[i + 1]);
        }
    }
    lemma_opening_at(s, 0, open);
    assert(s[close as int] == '}');
    assert forall|i: int| open + 2 <= i < close implies #[trigger] s[i] != '}' by {
        assert(s[i] == name[i - open - 2]);
        assert(name.contains(name[i - open - 2]));
    }
    lemma_closing_at(s, open + 2, close);
    assert(s.subrange(open as int + 2, close as int) =~= name);
    assert(s.skip(close as int + 1) =~= rest);
    assert(s.take(open as int) =~= before);
}

/// A reference that is never closed is a fault.
pub proof fn law_open_reference_is_an_error(
    before: Seq<char>,
    tail: Seq<char>,
    env: Map<Seq<char>, Seq<char>>,
)
    requires
        opens_nothing(before),
        !tail.contains('}'),
    ensures
        expanded(before + seq!['$', '{'] + tail, env) == Err::<Seq<char>, TemplateFault>(
            TemplateFault::Unterminated,
        ),
{
    let s = before + seq!['$', '{'] + tail;
    let open = before.len();
    assert(s[open as int] == '$' && s[open as int + 1] == '{');
    assert forall|i: int| 0 <= i < open implies !(#[trigger] s[i] == '$' && s[i + 1] == '{') by {
        assert(s[i] == before[i]);
        if i + 1 < open {
            assert(s[i + 1] == before[i + 1]);
        }
    }
    lemma_opening_at(s, 0, open);
    assert forall|i: int| open + 2 <= i < s.len() implies #[trigger] s[i] != '}' by {
        assert(s[i] == tail[i - open - 2]);
        assert(tail.contains(tail[i - open - 2]));
    }
    lemma_closing_at(s, open + 2, s.len());
}

/// A fault is told in words that name its cause: the unset variable, or the
/// whole text with the reference left open.
pub proof fn law_faults_name_their_cause(input: Seq<char>, name: Seq<char>)
    ensures
        fault_words(input, TemplateFault::Unset(name)) == "environment variable "@ + name
            + " referenced in config is unset"@,
        fault_words(input, TemplateFault::Unterminated)
            == "unterminated ${...} in config value: "@ + quoted_literal(input),
{
}

/// A variable has the value of the first entry that names it.
pub proof fn law_first_entry_of_a_name_counts(vars: Seq<(String, String)>, i: int)
    requires
        0 <= i < vars.len(),
        forall|j: int| 0 <= j < i ==> (#[trigger] vars[j]).0@ != vars[i].0@,
    ensures
        bindings(vars).contains_key(vars[i].0@),
        bindings(vars)[vars[i].0@] == vars[i].1@,
    decreases vars.len(),
{
    if i > 0 {
        let rest = vars.drop_first();
        assert forall|j: int| 0 <= j < i - 1 implies (#[trigger] rest[j]).0@ != rest[i - 1].0@ by {
            assert(vars[j + 1].0@ != vars[i].0@);
        }
        law_first_entry_of_a_name_counts(rest, i - 1);
        assert(vars[0].0@ != vars[i].0@);
    }
}

/// A variable that no entry names is unset.
pub proof fn law_unnamed_variable_is_unset(vars: Seq<(String, String)>, name: Seq<char>)
    requires
        forall|j: int| 0 <= j < vars.len() ==> (#[trigger] vars[j]).0@ != name,
    ensures
        !bindings(vars).contains_key(name),
    decreases vars.len(),
{
    if vars.len() > 0 {
        let rest = vars.drop_first();
        assert forall|j: int| 0 <= j < rest.len() implies (#[trigger] rest[j]).0@ != name by {
            assert(vars[j + 1].0@ != name);
        }
        law_unnamed_variable_is_unset(rest, name);
        assert(vars[0].0@ != name);
    }
}

} // verus!
