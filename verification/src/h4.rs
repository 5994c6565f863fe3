use vstd::prelude::*;

verus! {

use crate::insertable::InsertableIterator;
use crate::is_name_char;
use crate::is_name_char_spec;
use crate::output::Outputs;
use crate::scopes::BuiltinTag;
use crate::scopes::Scopes;
use crate::scopes::Value;
use crate::scopes::ValueView;
use crate::text::dec_rep;
use crate::text::dec_text;
use crate::text::text_of;

/// What the engine requires from its host: expression evaluation by the
/// scripting engine (with the current bindings visible for lookups),
/// stringification and inspection of the opaque script values it hands
/// out as handles, and access to files and shell commands. Nothing is
/// assumed of any result: the engine is verified for every outcome.
pub trait Bridge {
    /// Evaluates `expr` with the bindings of `env` visible as named
    /// lookups and returns a handle naming the resulting script value.
    fn evaluate(&mut self, expr: &Vec<char>, env: &Scopes) -> u64;

    /// The display text of the script value named by `handle`.
    fn stringify(&mut self, handle: u64) -> Vec<char>;

    /// Whether the script value named by `handle` is callable.
    fn is_callable(&mut self, handle: u64) -> bool;

    /// Whether the script value named by `handle` is a sequence.
    fn is_sequence(&mut self, handle: u64) -> bool;

    /// Handles naming the elements of the sequence named by `handle`.
    fn sequence_elements(&mut self, handle: u64) -> Vec<u64>;

    /// The contents of the named file, or a display text of the failure.
    fn read_file(&mut self, path: &Vec<char>) -> Result<Vec<char>, Vec<char>>;

    /// The standard output of the shell command, or a display text of the
    /// failure.
    fn run_shell(&mut self, command: &Vec<char>) -> Result<Vec<char>, Vec<char>>;
}

/// A fatal condition: it unwinds to the top-level driver and ends the run.
#[derive(Clone, Copy, PartialEq, Eq, Structural, Debug)]
pub enum EngineError {
    /// A scope pop with only the global frame left.
    ScopeUnderflow,
    /// The stream ended inside a quoted region.
    UnterminatedQuote,
    /// The stream ended inside a call's argument list.
    UnterminatedCall,
    /// A callable script value was invoked with call syntax.
    ScriptCallUnsupported,
    /// A builtin was called with fewer arguments than it needs.
    MissingArguments,
    /// An iteration over a name that is bound nowhere.
    UnboundIterationName,
    /// An iteration over a value that is not a sequence.
    BadIterationTarget,
    /// Quote nesting exceeded the machine's counter range.
    QuoteTooDeep,
}

/// What one scanning step saw.
#[derive(Clone, Copy, PartialEq, Eq, Structural, Debug)]
pub enum AdvanceResult {
    EnterQuote,
    QuoteChar,
    Macro,
    Normal,
    CallEnd,
    NextArg,
}

/// A call whose argument list is still being scanned: the handle of the
/// slot the macro name resolved to, the arguments captured so far, and
/// the buffer accumulating the current argument.
pub struct PendingCall {
    pub slot: usize,
    pub args: Vec<Vec<char>>,
    pub buf: Vec<char>,
}

/// The macro engine: scanner state over a pushback stream, the binding
/// store, and the output buffers.
pub struct H4 {
    pub iter: InsertableIterator<char>,
    pub outputs: Outputs,
    pub current_output: Vec<char>,
    pub scopes: Scopes,
    pub quote_level: usize,
    pub calls: Vec<PendingCall>,
    pub quote_start: char,
    pub quote_end: char,
}

/// The views of a sequence of texts.
pub open spec fn views_of(args: Seq<Vec<char>>) -> Seq<Seq<char>> {
    args.map_values(|a: Vec<char>| a@)
}

/// The scope-opening marker spliced around a literal macro's body. The
/// leading empty quote pair keeps the marker from merging with name
/// characters that may precede it after rescanning.
pub open spec fn scope_open() -> Seq<char> {
    "`'@pushScope\n"@
}

/// The scope-closing marker spliced around a literal macro's body.
pub open spec fn scope_close() -> Seq<char> {
    "`'@popScope\n"@
}

/// The text of a quoted `@define` call binding `name` to `body`.
pub open spec fn define_call(name: Seq<char>, body: Seq<char>) -> Seq<char> {
    "@define(`"@ + name + "', `"@ + body + "')\n"@
}

/// The name under which a call's argument `i` is bound inside the
/// expansion of a literal macro body.
pub open spec fn arg_name(i: nat) -> Seq<char> {
    "@arg"@ + dec_rep(i)
}

/// The `@define` lines binding `@arg0`, `@arg1`, ... to the arguments.
pub open spec fn define_lines(args: Seq<Seq<char>>) -> Seq<char>
    decreases args.len(),
{
    if args.len() == 0 {
        Seq::empty()
    } else {
        define_lines(args.drop_last()) + define_call(
            arg_name((args.len() - 1) as nat),
            args.last(),
        )
    }
}

/// The full expansion text of a literal macro body: a private scope is
/// opened, each argument is bound, the body follows unchanged (it is
/// rescanned, not pre-interpreted), and the scope is closed.
pub open spec fn literal_expansion(body: Seq<char>, args: Seq<Seq<char>>) -> Seq<char> {
    scope_open() + define_lines(args) + body + scope_close()
}

/// One block of an iteration's expansion: a private scope binding `name`
/// to one element's text around the iteration body.
pub open spec fn iteration_block(name: Seq<char>, item: Seq<char>, body: Seq<char>) -> Seq<char> {
    scope_open() + define_call(name, item) + body + scope_close()
}

/// The concatenated iteration blocks for the element texts `items`.
pub open spec fn iteration_blocks(name: Seq<char>, items: Seq<Seq<char>>, body: Seq<char>) -> Seq<
    char,
>
    decreases items.len(),
{
    if items.len() == 0 {
        Seq::empty()
    } else {
        iteration_blocks(name, items.drop_last(), body) + iteration_block(
            name,
            items.last(),
            body,
        )
    }
}

/// `s` less its first character, or empty when `s` is empty.
pub open spec fn skip_one(s: Seq<char>) -> Seq<char> {
    if s.len() == 0 {
        s
    } else {
        s.skip(1)
    }
}

/// Builds the text of a quoted `@define` call.
pub fn build_define_call(name: &Vec<char>, body: &Vec<char>) -> (r: Vec<char>)
    ensures
        r@ == define_call(name@, body@),
{
    let mut r = text_of("@define(`");
    crate::text::append_text(&mut r, name);
    crate::text::append_str(&mut r, "', `");
    crate::text::append_text(&mut r, body);
    crate::text::append_str(&mut r, "')\n");
    proof {
        assert(r@ =~= define_call(name@, body@));
    }
    r
}

/// Builds the expansion text of a literal macro body for `args`.
pub fn build_literal_expansion(body: &Vec<char>, args: &Vec<Vec<char>>) -> (r: Vec<char>)
    ensures
        r@ == literal_expansion(body@, views_of(args@)),
{
    let mut r = text_of("`'@pushScope\n");
    let mut i: usize = 0;
    while i < args.len()
        invariant
            i <= args@.len(),
            r@ == scope_open() + define_lines(views_of(args@).take(i as int)),
        decreases args@.len() - i,
    {
        let mut name = text_of("@arg");
        let digits = dec_text(i as u64);
        crate::text::append_text(&mut name, &digits);
        assert(name@ == arg_name(i as nat));
        let line = build_define_call(&name, &args[i]);
        crate::text::append_text(&mut r, &line);
        proof {
            let vs = views_of(args@);
            assert(vs.take(i + 1).drop_last() =~= vs.take(i as int));
            assert(vs.take(i + 1).last() == args@[i as int]@);
            assert(r@ =~= scope_open() + define_lines(vs.take(i + 1)));
        }
        i += 1;
    }
    assert(views_of(args@).take(args@.len() as int) =~= views_of(args@));
    crate::text::append_text(&mut r, body);
    crate::text::append_str(&mut r, "`'@popScope\n");
    proof {
        assert(r@ =~= literal_expansion(body@, views_of(args@)));
    }
    r
}

/// Builds one iteration block.
pub fn build_iteration_block(name: &Vec<char>, item: &Vec<char>, body: &Vec<char>) -> (r: Vec<
    char,
>)
    ensures
        r@ == iteration_block(name@, item@, body@),
{
    let mut r = text_of("`'@pushScope\n");
    let line = build_define_call(name, item);
    crate::text::append_text(&mut r, &line);
    crate::text::append_text(&mut r, body);
    crate::text::append_str(&mut r, "`'@popScope\n");
    proof {
        assert(r@ =~= iteration_block(name@, item@, body@));
    }
    r
}

/// The length of the maximal prefix of name characters.
pub open spec fn name_len_from(s: Seq<char>) -> nat
    decreases s.len(),
{
    if s.len() == 0 || !is_name_char_spec(s[0]) {
        0
    } else {
        1 + name_len_from(s.skip(1))
    }
}

/// The maximal name-character prefix never exceeds the text itself.
pub proof fn lemma_name_len_bounded(s: Seq<char>)
    ensures
        name_len_from(s) <= s.len(),
    decreases s.len(),
{
    if s.len() > 0 && is_name_char_spec(s[0]) {
        lemma_name_len_bounded(s.skip(1));
    }
}

/// The output targets and pending calls of `post` are those of `pre` with
/// `t` appended to the current target: the newest pending call's argument
/// buffer when a call is open, the named current output otherwise.
pub open spec fn output_extended(pre: H4, post: H4, t: Seq<char>) -> bool {
    if pre.calls@.len() > 0 {
        &&& post.outputs == pre.outputs
        &&& post.calls@.len() == pre.calls@.len()
        &&& post.calls@.drop_last() == pre.calls@.drop_last()
        &&& post.calls@.last().slot == pre.calls@.last().slot
        &&& post.calls@.last().args == pre.calls@.last().args
        &&& post.calls@.last().buf@ == pre.calls@.last().buf@ + t
    } else {
        &&& post.calls == pre.calls
        &&& post.outputs.spec_text(pre.current_output@) == pre.outputs.spec_text(
            pre.current_output@,
        ) + t
        &&& forall|m: Seq<char>|
            m != pre.current_output@ ==> #[trigger] post.outputs.spec_text(m)
                == pre.outputs.spec_text(m)
    }
}

/// Everything but the output targets is unchanged.
pub open spec fn core_unchanged(pre: H4, post: H4) -> bool {
    &&& post.iter == pre.iter
    &&& post.scopes == pre.scopes
    &&& post.current_output == pre.current_output
    &&& post.quote_level == pre.quote_level
    &&& post.quote_start == pre.quote_start
    &&& post.quote_end == pre.quote_end
}

/// Everything but the stream is unchanged.
pub open spec fn same_except_iter(pre: H4, post: H4) -> bool {
    &&& post.outputs == pre.outputs
    &&& post.calls == pre.calls
    &&& post.scopes == pre.scopes
    &&& post.current_output == pre.current_output
    &&& post.quote_level == pre.quote_level
    &&& post.quote_start == pre.quote_start
    &&& post.quote_end == pre.quote_end
}

/// `s1` is `pre` with the call-close delimiter consumed and the newest
/// pending call removed: the state a call-end dispatch starts from.
pub open spec fn popped_state(pre: H4, s1: H4) -> bool {
    &&& s1.iter@ == pre.iter@.skip(1)
    &&& s1.calls@ == pre.calls@.drop_last()
    &&& s1.scopes == pre.scopes
    &&& s1.outputs == pre.outputs
    &&& s1.current_output == pre.current_output
    &&& s1.quote_level == pre.quote_level
    &&& s1.quote_start == pre.quote_start
    &&& s1.quote_end == pre.quote_end
}

/// How a dispatch result `t` leaves the engine: spliced in front of the
/// stream for rescanning, or written to the current target as literal
/// output.
pub open spec fn routed(s2: H4, post: H4, t: Seq<char>, rescan: bool) -> bool {
    if rescan {
        same_except_iter(s2, post) && post.iter@ == t + s2.iter@
    } else {
        core_unchanged(s2, post) && output_extended(s2, post, t)
    }
}

/// Everything but the binding store and the stream is unchanged.
pub open spec fn keeps_surroundings(pre: H4, post: H4) -> bool {
    &&& post.outputs == pre.outputs
    &&& post.calls == pre.calls
    &&& post.current_output == pre.current_output
    &&& post.quote_level == pre.quote_level
    &&& post.quote_start == pre.quote_start
    &&& post.quote_end == pre.quote_end
}

/// The lengths and second characters of the builtin names: enough to
/// tell any two of them apart, so each registration provably leaves
/// the previously bound names alone.
proof fn lemma_builtin_name_facts()
    ensures
        "@define"@.len() == 7,
        "@define"@[1] == 'd',
        "@dump"@.len() == 5,
        "@dump"@[1] == 'd',
        "@pushScope"@.len() == 10,
        "@pushScope"@[1] == 'p',
        "@popScope"@.len() == 9,
        "@popScope"@[1] == 'p',
        "@skip"@.len() == 5,
        "@skip"@[1] == 's',
        "@jsEval"@.len() == 7,
        "@jsEval"@[1] == 'j',
        "@let"@.len() == 4,
        "@let"@[1] == 'l',
        "@set"@.len() == 4,
        "@set"@[1] == 's',
        "@get"@.len() == 4,
        "@get"@[1] == 'g',
        "@shell"@.len() == 6,
        "@shell"@[1] == 's',
        "@import"@.len() == 7,
        "@import"@[1] == 'i',
        "@for"@.len() == 4,
        "@for"@[1] == 'f',
        "@newline"@.len() == 8,
        "@newline"@[1] == 'n',
{
    reveal_strlit("@define");
    reveal_strlit("@dump");
    reveal_strlit("@pushScope");
    reveal_strlit("@popScope");
    reveal_strlit("@skip");
    reveal_strlit("@jsEval");
    reveal_strlit("@let");
    reveal_strlit("@set");
    reveal_strlit("@get");
    reveal_strlit("@shell");
    reveal_strlit("@import");
    reveal_strlit("@for");
    reveal_strlit("@newline");
}

impl H4 {
    /// The binding store is well formed and every pending call's slot
    /// handle points into the arena.
    pub open spec fn wf(&self) -> bool {
        &&& self.scopes.wf()
        &&& forall|i: int|
            0 <= i < self.calls@.len() ==> (#[trigger] self.calls@[i]).slot
                < self.scopes.slots@.len()
    }

    /// An engine over `input` with the builtin table and the `@newline`
    /// literal bound in the global frame, writing to `stdout`, outside any
    /// quote or call.
    #[verifier::rlimit(100)]
    pub fn new(input: Vec<char>) -> (h: H4)
        ensures
            h.wf(),
            h.iter@ == input@,
            h.quote_level == 0,
            h.calls@.len() == 0,
            h.quote_start == '`',
            h.quote_end == '\'',
            h.current_output@ == "stdout"@,
            h.scopes.frames@.len() == 1,
            h.outputs.entries@.len() == 0,
            h.scopes.spec_get("@define"@) == Some(ValueView::Builtin(BuiltinTag::Define)),
            h.scopes.spec_get("@dump"@) == Some(ValueView::Builtin(BuiltinTag::Dump)),
            h.scopes.spec_get("@pushScope"@) == Some(ValueView::Builtin(BuiltinTag::PushScope)),
            h.scopes.spec_get("@popScope"@) == Some(ValueView::Builtin(BuiltinTag::PopScope)),
            h.scopes.spec_get("@skip"@) == Some(ValueView::Builtin(BuiltinTag::Skip)),
            h.scopes.spec_get("@jsEval"@) == Some(ValueView::Builtin(BuiltinTag::JsEval)),
            h.scopes.spec_get("@let"@) == Some(ValueView::Builtin(BuiltinTag::LetVar)),
            h.scopes.spec_get("@set"@) == Some(ValueView::Builtin(BuiltinTag::SetVar)),
            h.scopes.spec_get("@get"@) == Some(ValueView::Builtin(BuiltinTag::GetVar)),
            h.scopes.spec_get("@shell"@) == Some(ValueView::Builtin(BuiltinTag::Shell)),
            h.scopes.spec_get("@import"@) == Some(ValueView::Builtin(BuiltinTag::Import)),
            h.scopes.spec_get("@for"@) == Some(ValueView::Builtin(BuiltinTag::ForLoop)),
            h.scopes.spec_get("@newline"@) == Some(ValueView::Plain("\n"@)),
            (forall|n: Seq<char>|
                n != "@define"@ && n != "@dump"@ && n != "@pushScope"@ && n != "@popScope"@ && n
                    != "@skip"@ && n != "@jsEval"@ && n != "@let"@ && n != "@set"@ && n != "@get"@
                    && n != "@shell"@ && n != "@import"@ && n != "@for"@ && n != "@newline"@
                    ==> #[trigger] h.scopes.spec_get(n) is None),
    {
        let mut scopes = Scopes::new();
        let n1 = text_of("@define");
        scopes.let_variable(&n1, Value::Builtin(BuiltinTag::Define));
        let n2 = text_of("@dump");
        scopes.let_variable(&n2, Value::Builtin(BuiltinTag::Dump));
        let n3 = text_of("@pushScope");
        scopes.let_variable(&n3, Value::Builtin(BuiltinTag::PushScope));
        let n4 = text_of("@popScope");
        scopes.let_variable(&n4, Value::Builtin(BuiltinTag::PopScope));
        let n5 = text_of("@skip");
        scopes.let_variable(&n5, Value::Builtin(BuiltinTag::Skip));
        let n6 = text_of("@jsEval");
        scopes.let_variable(&n6, Value::Builtin(BuiltinTag::JsEval));
        let n7 = text_of("@let");
        scopes.let_variable(&n7, Value::Builtin(BuiltinTag::LetVar));
        let n8 = text_of("@set");
        scopes.let_variable(&n8, Value::Builtin(BuiltinTag::SetVar));
        let n9 = text_of("@get");
        scopes.let_variable(&n9, Value::Builtin(BuiltinTag::GetVar));
        let n10 = text_of("@shell");
        scopes.let_variable(&n10, Value::Builtin(BuiltinTag::Shell));
        let n11 = text_of("@import");
        scopes.let_variable(&n11, Value::Builtin(BuiltinTag::Import));
        let n12 = text_of("@for");
        scopes.let_variable(&n12, Value::Builtin(BuiltinTag::ForLoop));
        let n13 = text_of("@newline");
        scopes.let_variable(&n13, Value::Plain(text_of("\n")));
        proof {
            lemma_builtin_name_facts();
        }
        H4 {
            iter: InsertableIterator::new(input),
            outputs: Outputs::new(),
            current_output: text_of("stdout"),
            scopes,
            quote_level: 0,
            calls: Vec::new(),
            quote_start: '`',
            quote_end: '\'',
        }
    }

    /// A copy of the unconsumed input, so a driver's fatal diagnostic
    /// can name the construct the scanner stopped at.
    pub fn remaining_input(&self) -> (r: Vec<char>)
        ensures
            r@ == self.iter@,
    {
        self.iter.remaining()
    }

    /// A copy of the named output buffer's accumulated text.
    pub fn output_text(&self, name: &Vec<char>) -> (r: Vec<char>)
        ensures
            r@ == self.outputs.spec_text(name@),
    {
        self.outputs.text_of(name)
    }

    /// Writes one character to the current target: the newest pending
    /// call's argument buffer, or the named current output.
    fn write(&mut self, chr: char)
        requires
            old(self).wf(),
        ensures
            final(self).wf(),
            core_unchanged(*old(self), *final(self)),
            output_extended(*old(self), *final(self), seq![chr]),
    {
        let n = self.calls.len();
        if n > 0 {
            let call = vstd::std_specs::vec::vec_index_mut(&mut self.calls, n - 1);
            call.buf.push(chr);
            proof {
                assert(self.calls@.drop_last() =~= old(self).calls@.drop_last());
                assert(self.calls@.last().buf@ =~= old(self).calls@.last().buf@ + seq![chr]);
            }
        } else {
            self.outputs.append_char(&self.current_output, chr);
            proof {
                assert(old(self).outputs.spec_text(old(self).current_output@).push(chr)
                    =~= old(self).outputs.spec_text(old(self).current_output@) + seq![chr]);
            }
        }
    }

    /// Writes a whole text to the current target.
    fn write_string(&mut self, t: &Vec<char>)
        requires
            old(self).wf(),
        ensures
            final(self).wf(),
            core_unchanged(*old(self), *final(self)),
            output_extended(*old(self), *final(self), t@),
    {
        let n = self.calls.len();
        if n > 0 {
            let call = vstd::std_specs::vec::vec_index_mut(&mut self.calls, n - 1);
            crate::text::append_text(&mut call.buf, t);
            proof {
                assert(self.calls@.drop_last() =~= old(self).calls@.drop_last());
            }
        } else {
            self.outputs.append_text(&self.current_output, t);
        }
    }

    /// Splices expansion output in front of the remaining input so the
    /// next steps rescan it.
    fn insert_input(&mut self, t: Vec<char>)
        ensures
            same_except_iter(*old(self), *final(self)),
            final(self).iter@ == t@ + old(self).iter@,
    {
        self.iter.insert_elements(t);
    }

    /// Consumes the maximal run of name characters at the stream front.
    fn consume_name(&mut self) -> (name: Vec<char>)
        ensures
            same_except_iter(*old(self), *final(self)),
            name@ == old(self).iter@.take(name_len_from(old(self).iter@) as int),
            final(self).iter@ == old(self).iter@.skip(name_len_from(old(self).iter@) as int),
    {
        let mut name: Vec<char> = Vec::new();
        loop
            invariant
                same_except_iter(*old(self), *self),
                old(self).iter@ == name@ + self.iter@,
                name_len_from(old(self).iter@) == name@.len() + name_len_from(self.iter@),
            decreases self.iter@.len(),
        {
            let stop = match self.iter.peek() {
                None => true,
                Some(c) => !is_name_char(*c),
            };
            if stop {
                proof {
                    assert(name_len_from(self.iter@) == 0);
                    assert(name@ =~= old(self).iter@.take(name@.len() as int));
                    assert(self.iter@ =~= old(self).iter@.skip(name@.len() as int));
                }
                return name;
            }
            match self.iter.next() {
                Some(c) => {
                    name.push(c);
                },
                None => {
                    proof {
                        assert(false);
                    }
                },
            }
        }
    }
}

/// The quote depth after seeing `c` at depth `depth > 0`.
pub open spec fn quote_next(qs: char, qe: char, depth: int, c: char) -> int {
    if c == qs {
        depth + 1
    } else if c == qe {
        depth - 1
    } else {
        depth
    }
}

/// The quote depth after seeing `c` at depth `pre.quote_level > 0`.
pub open spec fn quote_adjusted(pre: H4, c: char) -> int {
    quote_next(pre.quote_start, pre.quote_end, pre.quote_level as int, c)
}

/// The quote-mode transition of the scanner (the success case of the
/// quote clause of `advance`): one character is consumed, the depth
/// adjusts, the character is copied to the current target unless the
/// region just closed, and the binding store is never touched — no
/// expansion is attempted on quoted text.
pub open spec fn quote_step_rel(pre: H4, post: H4) -> bool {
    &&& pre.iter@.len() > 0
    &&& pre.quote_level > 0
    &&& post.iter@ == pre.iter@.skip(1)
    &&& post.quote_level == quote_adjusted(pre, pre.iter@[0])
    &&& post.scopes == pre.scopes
    &&& post.current_output == pre.current_output
    &&& post.quote_start == pre.quote_start
    &&& post.quote_end == pre.quote_end
    &&& (quote_adjusted(pre, pre.iter@[0]) > 0 ==> output_extended(pre, post, seq![pre.iter@[0]]))
    &&& (quote_adjusted(pre, pre.iter@[0]) == 0 ==> post.calls == pre.calls && post.outputs
        == pre.outputs)
}

/// The full transition contract of one `advance` step, as a relation
/// over the states before and after and the returned value. `advance`
/// ensures exactly this (plus well-formedness and the error-kind bound),
/// and the run-level contract of `consume` is stated over chains of such
/// steps.
pub open spec fn advance_post(
    pre: H4,
    post: H4,
    r: Result<Option<AdvanceResult>, EngineError>,
) -> bool {
    // end of input: nothing changes
    &&& (pre.iter@.len() == 0 ==> (r matches Ok(None) && post == pre))
    &&& (pre.iter@.len() > 0 ==> !(r matches Ok(None)))
    // inside a quoted region: depth adjusts, the character is
    // consumed, and it is copied to the current target unless the
    // region just closed
    &&& (pre.iter@.len() > 0 && pre.quote_level > 0 ==> ({
        let c = pre.iter@[0];
        &&& (c == pre.quote_start && pre.quote_level == usize::MAX ==> (r
            matches Err(e) && e == EngineError::QuoteTooDeep && post == pre))
        &&& (!(c == pre.quote_start && pre.quote_level == usize::MAX) ==> ({
            &&& r matches Ok(Some(a)) && a == AdvanceResult::QuoteChar
            &&& quote_step_rel(pre, post)
        }))
    }))
    // a quote opens at depth zero: consumed, no output
    &&& (pre.iter@.len() > 0 && pre.quote_level == 0 && pre.iter@[0] == pre.quote_start ==> ({
        &&& r matches Ok(Some(a)) && a == AdvanceResult::EnterQuote
        &&& post.iter@ == pre.iter@.skip(1)
        &&& post.quote_level == 1
        &&& post.scopes == pre.scopes
        &&& post.calls == pre.calls
        &&& post.outputs == pre.outputs
        &&& post.current_output == pre.current_output
        &&& post.quote_start == pre.quote_start
        &&& post.quote_end == pre.quote_end
    }))
    // a name at depth zero
    &&& (pre.iter@.len() > 0 && pre.quote_level == 0 && pre.iter@[0] != pre.quote_start && is_name_char_spec(pre.iter@[0]) ==> ({
        let n = name_len_from(pre.iter@) as int;
        let name = pre.iter@.take(n);
        let rest = pre.iter@.skip(n);
        &&& (pre.scopes.spec_get(name) is None ==> ({
            // unbound: the name passes through to the output
            &&& r matches Ok(Some(a)) && a == AdvanceResult::Normal
            &&& post.iter@ == rest
            &&& post.scopes == pre.scopes
            &&& post.quote_level == pre.quote_level
            &&& post.current_output == pre.current_output
            &&& output_extended(pre, post, name)
        }))
        &&& (pre.scopes.spec_get(name) is Some && rest.len() > 0 && rest[0] == '('
            ==> ({
            // call syntax: a pending call opens, arguments follow
            &&& r matches Ok(Some(a)) && a == AdvanceResult::Macro
            &&& post.iter@ == rest.skip(1)
            &&& post.scopes == pre.scopes
            &&& post.outputs == pre.outputs
            &&& post.quote_level == pre.quote_level
            &&& post.current_output == pre.current_output
            &&& post.calls@.len() == pre.calls@.len() + 1
            &&& post.calls@.drop_last() == pre.calls@
            &&& Some(post.calls@.last().slot as int) == pre.scopes.lookup_handle(name)
            &&& post.calls@.last().args@.len() == 0
            &&& post.calls@.last().buf@.len() == 0
        }))
        &&& (pre.scopes.spec_get(name) matches Some(ValueView::Plain(body)) ==> !(
        rest.len() > 0 && rest[0] == '(') ==> ({
            // bare literal macro: its bracketed expansion, with no
            // argument bindings, is spliced in front for rescanning
            &&& r matches Ok(Some(a)) && a == AdvanceResult::Macro
            &&& post.iter@ == literal_expansion(body, Seq::<Seq<char>>::empty())
                + rest
            &&& post.scopes == pre.scopes
            &&& post.calls == pre.calls
            &&& post.outputs == pre.outputs
            &&& post.quote_level == pre.quote_level
            &&& post.current_output == pre.current_output
        }))
        &&& (pre.scopes.spec_get(name) matches Some(ValueView::Script(_)) ==> !(
        rest.len() > 0 && rest[0] == '(') ==> ({
            // bare script value: its display text is literal output
            &&& r matches Ok(Some(a)) && a == AdvanceResult::Macro
            &&& post.iter@ == rest
            &&& post.scopes == pre.scopes
            &&& post.quote_level == pre.quote_level
            &&& post.current_output == pre.current_output
            &&& post.quote_start == pre.quote_start
            &&& post.quote_end == pre.quote_end
            &&& (exists|t: Seq<char>| output_extended(pre, post, t))
        }))
        &&& (pre.scopes.spec_get(name) matches Some(ValueView::Builtin(tag)) ==> !(
        rest.len() > 0 && rest[0] == '(') ==> ({
            // bare builtin: it runs on the post-name state over an
            // empty argument list, and its result is routed per tag
            &&& post.quote_level == pre.quote_level
            &&& post.current_output == pre.current_output
            &&& (r matches Ok(Some(a)) ==> a == AdvanceResult::Macro)
            &&& (r matches Err(e) ==> (exists|s1: H4|
                #[trigger] crate::builtin::builtin_post(
                    tag,
                    s1,
                    post,
                    Seq::<Vec<char>>::empty(),
                    Result::<Vec<char>, EngineError>::Err(e),
                ) && same_except_iter(pre, s1) && s1.iter@ == rest))
            &&& (r is Ok ==> (exists|s1: H4, s2: H4, t: Vec<char>|
                #[trigger] crate::builtin::builtin_post(
                    tag,
                    s1,
                    s2,
                    Seq::<Vec<char>>::empty(),
                    Result::<Vec<char>, EngineError>::Ok(t),
                ) && same_except_iter(pre, s1) && s1.iter@ == rest && routed(
                    s2,
                    post,
                    t@,
                    crate::builtin::rescans(tag),
                )))
        }))
    }))
    // a call closes: the last argument is captured and the pending
    // call is dispatched over its argument list
    &&& (pre.iter@.len() > 0 && pre.quote_level == 0 && pre.iter@[0] != pre.quote_start && !is_name_char_spec(pre.iter@[0]) && pre.calls@.len() > 0
        && pre.iter@[0] == ')' ==> ({
        let call = pre.calls@.last();
        let full_args = views_of(call.args@).push(call.buf@);
        &&& (pre.scopes.slots@[call.slot as int]@ matches ValueView::Plain(body)
            ==> ({
            &&& r matches Ok(Some(a)) && a == AdvanceResult::CallEnd
            &&& post.iter@ == literal_expansion(body, full_args) + pre.iter@.skip(1)
            &&& post.calls@ == pre.calls@.drop_last()
            &&& post.scopes == pre.scopes
            &&& post.outputs == pre.outputs
            &&& post.quote_level == pre.quote_level
            &&& post.current_output == pre.current_output
        }))
        &&& (pre.scopes.slots@[call.slot as int]@ matches ValueView::Builtin(tag)
            ==> ({
            // builtin at call end: it runs on the popped state over
            // the captured arguments, and its result is routed
            &&& (r matches Err(e) ==> (exists|s1: H4|
                #[trigger] crate::builtin::builtin_post(
                    tag,
                    s1,
                    post,
                    call.args@.push(call.buf),
                    Result::<Vec<char>, EngineError>::Err(e),
                ) && popped_state(pre, s1)))
            &&& (r is Ok ==> (exists|s1: H4, s2: H4, t: Vec<char>|
                #[trigger] crate::builtin::builtin_post(
                    tag,
                    s1,
                    s2,
                    call.args@.push(call.buf),
                    Result::<Vec<char>, EngineError>::Ok(t),
                ) && popped_state(pre, s1) && routed(
                    s2,
                    post,
                    t@,
                    crate::builtin::rescans(tag),
                )))
        }))
        &&& (pre.scopes.slots@[call.slot as int]@ matches ValueView::Script(_)
            ==> ({
            // scripted value at call end: calling a callable is
            // fatal; otherwise the display text is literal output
            &&& (r is Err ==> r == Result::<Option<AdvanceResult>, EngineError>::Err(
                EngineError::ScriptCallUnsupported,
            ) && (exists|s1: H4| #[trigger] popped_state(pre, s1) && post
                == s1))
            &&& (r is Ok ==> (exists|s1: H4, t: Seq<char>|
                #[trigger] output_extended(s1, post, t) && popped_state(
                    pre,
                    s1,
                ) && core_unchanged(s1, post)))
        }))
        &&& (r matches Ok(Some(a)) ==> a == AdvanceResult::CallEnd)
        &&& (r is Ok ==> post.calls@.len() == pre.calls@.len() - 1)
        &&& post.quote_level == pre.quote_level
        &&& post.current_output == pre.current_output
    }))
    // an argument separator: the comma and one convention character
    // are consumed and the current argument is captured
    &&& (pre.iter@.len() > 0 && pre.quote_level == 0 && pre.iter@[0] != pre.quote_start && !is_name_char_spec(pre.iter@[0]) && pre.calls@.len() > 0
        && pre.iter@[0] == ',' ==> ({
        &&& r matches Ok(Some(a)) && a == AdvanceResult::NextArg
        &&& post.iter@ == skip_one(pre.iter@.skip(1))
        &&& post.scopes == pre.scopes
        &&& post.outputs == pre.outputs
        &&& post.quote_level == pre.quote_level
        &&& post.current_output == pre.current_output
        &&& post.calls@.len() == pre.calls@.len()
        &&& post.calls@.drop_last() == pre.calls@.drop_last()
        &&& post.calls@.last().slot == pre.calls@.last().slot
        &&& post.calls@.last().args@ == pre.calls@.last().args@.push(pre.calls@.last().buf)
        &&& post.calls@.last().buf@.len() == 0
    }))
    // any other character is literal output
    &&& (pre.iter@.len() > 0 && pre.quote_level == 0 && pre.iter@[0] != pre.quote_start && !is_name_char_spec(pre.iter@[0]) && !(pre.calls@.len() > 0
        && (pre.iter@[0] == ')' || pre.iter@[0] == ',')) ==> ({
        let c = pre.iter@[0];
        &&& r matches Ok(Some(a)) && a == AdvanceResult::Normal
        &&& post.iter@ == pre.iter@.skip(1)
        &&& post.scopes == pre.scopes
        &&& post.quote_level == pre.quote_level
        &&& post.current_output == pre.current_output
        &&& output_extended(pre, post, seq![c])
    }))
}

/// Some scanner step leads from `pre` to `post`.
pub open spec fn advance_rel(pre: H4, post: H4) -> bool {
    exists|r: Result<Option<AdvanceResult>, EngineError>| #[trigger] advance_post(pre, post, r)
}

/// `post` is reachable from `pre` by exactly `k` scanner steps.
pub open spec fn reachable(pre: H4, post: H4, k: nat) -> bool
    decreases k,
{
    if k == 0 {
        post == pre
    } else {
        exists|mid: H4| #[trigger] advance_rel(pre, mid) && reachable(mid, post, (k - 1) as nat)
    }
}

/// Reachability extends by one step at the end.
proof fn lemma_reachable_step(a: H4, b: H4, c: H4, k: nat)
    requires
        reachable(a, b, k),
        advance_rel(b, c),
    ensures
        reachable(a, c, (k + 1) as nat),
    decreases k,
{
    if k == 0 {
        assert(advance_rel(b, c) && reachable(c, c, 0));
    } else {
        let mid = choose|mid: H4|
            #[trigger] advance_rel(a, mid) && reachable(mid, b, (k - 1) as nat);
        lemma_reachable_step(mid, b, c, (k - 1) as nat);
        assert(advance_rel(a, mid) && reachable(mid, c, k as nat));
    }
}

impl H4 {
    /// Dispatches a resolved macro value over the fully expanded argument
    /// texts; `called` says whether call syntax was used. The result text
    /// is paired with whether it is meant for rescanning (spliced back
    /// into the stream) rather than literal output: a literal body's
    /// bracketed expansion and the rescanning builtins are spliced, a
    /// script value's display text and the other builtins' results are
    /// literal.
    pub fn eval_macro<B: Bridge>(
        &mut self,
        bridge: &mut B,
        value: &Value,
        args: &Vec<Vec<char>>,
        called: bool,
    ) -> (r: Result<(Vec<char>, bool), EngineError>)
        requires
            old(self).wf(),
        ensures
            final(self).wf(),
            final(self).calls == old(self).calls,
            final(self).current_output == old(self).current_output,
            final(self).quote_level == old(self).quote_level,
            final(self).quote_start == old(self).quote_start,
            final(self).quote_end == old(self).quote_end,
            final(self).scopes.slots@.len() >= old(self).scopes.slots@.len(),
            (value@ matches ValueView::Plain(body) ==> *final(self) == *old(self) && (r matches Ok(
                p,
            ) && p.1 == true && p.0@ == literal_expansion(body, views_of(args@)))),
            (value@ matches ValueView::Builtin(tag) ==> ({
                &&& (r matches Ok(p) ==> p.1 == crate::builtin::rescans(tag)
                    && crate::builtin::builtin_post(
                    tag,
                    *old(self),
                    *final(self),
                    args@,
                    Result::<Vec<char>, EngineError>::Ok(p.0),
                ))
                &&& (r matches Err(e) ==> crate::builtin::builtin_post(
                    tag,
                    *old(self),
                    *final(self),
                    args@,
                    Result::<Vec<char>, EngineError>::Err(e),
                ))
                &&& (tag != BuiltinTag::Dump ==> final(self).outputs == old(self).outputs)
            })),
            (value@ matches ValueView::Script(_) ==> *final(self) == *old(self) && (r matches Ok(p)
                ==> p.1 == false) && (r is Err ==> r == Result::<(Vec<char>, bool),
                EngineError,
            >::Err(EngineError::ScriptCallUnsupported)) && (!called ==> r is Ok)),
    {
        match value {
            Value::Plain(body) => {
                let t = build_literal_expansion(body, args);
                Ok((t, true))
            },
            Value::Builtin(tag) => {
                match crate::builtin::run_builtin(self, bridge, *tag, args) {
                    Err(e) => Err(e),
                    Ok(t) => {
                        let rescan = *tag == BuiltinTag::ForLoop || *tag == BuiltinTag::Import;
                        Ok((t, rescan))
                    },
                }
            },
            Value::Script(handle) => {
                if called {
                    if bridge.is_callable(*handle) {
                        return Err(EngineError::ScriptCallUnsupported);
                    }
                }
                let t = bridge.stringify(*handle);
                Ok((t, false))
            },
        }
    }

    /// One step of the scanning state machine of the engine: quote
    /// tracking with only the outermost pair stripped, maximal name runs
    /// resolved against the binding store, call-argument capture through
    /// the pending-call stack, and dispatch whose rescanned result is
    /// spliced back into the stream. Returns `Ok(None)` at end of input.
    #[verifier::rlimit(100)]
    #[verifier::spinoff_prover]
    pub fn advance<B: Bridge>(&mut self, bridge: &mut B) -> (r: Result<
        Option<AdvanceResult>,
        EngineError,
    >)
        requires
            old(self).wf(),
        ensures
            final(self).wf(),
            (r matches Err(e) ==> e != EngineError::UnterminatedQuote && e
                != EngineError::UnterminatedCall),
            advance_post(*old(self), *final(self), r),
    {
        let c = match self.iter.peek() {
            None => {
                return Ok(None);
            },
            Some(c) => *c,
        };
        if self.quote_level > 0 {
            if c == self.quote_start {
                if self.quote_level == usize::MAX {
                    return Err(EngineError::QuoteTooDeep);
                }
                self.quote_level = self.quote_level + 1;
            } else if c == self.quote_end {
                self.quote_level = self.quote_level - 1;
            }
            if self.quote_level > 0 {
                self.write(c);
            }
            let _ = self.iter.next();
            return Ok(Some(AdvanceResult::QuoteChar));
        }
        if c == self.quote_start {
            self.quote_level = 1;
            let _ = self.iter.next();
            return Ok(Some(AdvanceResult::EnterQuote));
        }
        if is_name_char(c) {
            let name = self.consume_name();
            proof {
                lemma_name_len_bounded(old(self).iter@);
                assert(name_len_from(old(self).iter@) >= 1);
            }
            match self.scopes.lookup_slot(&name) {
                None => {
                    self.write_string(&name);
                    return Ok(Some(AdvanceResult::Normal));
                },
                Some(h) => {
                    proof {
                        self.scopes.lemma_lookup_in_range(name@);
                    }
                    let open_call = match self.iter.peek() {
                        Some(c2) => *c2 == '(',
                        None => false,
                    };
                    if open_call {
                        let _ = self.iter.next();
                        self.calls.push(PendingCall { slot: h, args: Vec::new(), buf: Vec::new() });
                        proof {
                            assert(self.calls@.drop_last() =~= old(self).calls@);
                        }
                        return Ok(Some(AdvanceResult::Macro));
                    }
                    let value = self.scopes.read_slot(h);
                    let ghost s1 = *self;
                    let args: Vec<Vec<char>> = Vec::new();
                    match self.eval_macro(bridge, &value, &args, false) {
                        Err(e) => {
                            proof {
                                match value@ {
                                    ValueView::Builtin(tag) => {
                                        assert(crate::builtin::builtin_post(
                                            tag,
                                            s1,
                                            *self,
                                            Seq::<Vec<char>>::empty(),
                                            Result::<Vec<char>, EngineError>::Err(e),
                                        ));
                                    },
                                    _ => {},
                                }
                            }
                            return Err(e);
                        },
                        Ok((t, rescan)) => {
                            let ghost s2 = *self;
                            let ghost tv = t;
                            proof {
                                assert(views_of(args@) =~= Seq::<Seq<char>>::empty());
                            }
                            if rescan {
                                self.insert_input(t);
                            } else {
                                self.write_string(&t);
                                proof {
                                    if value@ is Script {
                                        assert(output_extended(*old(self), *self, t@));
                                    }
                                }
                            }
                            proof {
                                match value@ {
                                    ValueView::Builtin(tag) => {
                                        assert(crate::builtin::builtin_post(
                                            tag,
                                            s1,
                                            s2,
                                            Seq::<Vec<char>>::empty(),
                                            Result::<Vec<char>, EngineError>::Ok(tv),
                                        ));
                                        assert(routed(
                                            s2,
                                            *self,
                                            tv@,
                                            crate::builtin::rescans(tag),
                                        ));
                                    },
                                    _ => {},
                                }
                            }
                            return Ok(Some(AdvanceResult::Macro));
                        },
                    }
                },
            }
        }
        if self.calls.len() > 0 {
            if c == ')' {
                let _ = self.iter.next();
                let mut call = self.calls.pop().unwrap();
                let ghost popped = call;
                call.args.push(call.buf);
                proof {
                    assert(call.slot < self.scopes.slots@.len());
                    assert(views_of(call.args@) =~= views_of(popped.args@).push(popped.buf@));
                    assert(self.calls@ =~= old(self).calls@.drop_last());
                }
                let value = self.scopes.read_slot(call.slot);
                let ghost s1 = *self;
                let ghost captured = call.args;
                match self.eval_macro(bridge, &value, &call.args, true) {
                    Err(e) => {
                        proof {
                            assert(popped_state(*old(self), s1));
                            match value@ {
                                ValueView::Builtin(tag) => {
                                    assert(crate::builtin::builtin_post(
                                        tag,
                                        s1,
                                        *self,
                                        captured@,
                                        Result::<Vec<char>, EngineError>::Err(e),
                                    ));
                                },
                                _ => {},
                            }
                        }
                        return Err(e);
                    },
                    Ok((t, rescan)) => {
                        let ghost s2 = *self;
                        let ghost tv = t;
                        if rescan {
                            self.insert_input(t);
                        } else {
                            self.write_string(&t);
                        }
                        proof {
                            assert(popped_state(*old(self), s1));
                            match value@ {
                                ValueView::Builtin(tag) => {
                                    assert(crate::builtin::builtin_post(
                                        tag,
                                        s1,
                                        s2,
                                        captured@,
                                        Result::<Vec<char>, EngineError>::Ok(tv),
                                    ));
                                    assert(routed(s2, *self, tv@, crate::builtin::rescans(tag)));
                                },
                                ValueView::Script(_) => {
                                    assert(output_extended(s1, *self, tv@));
                                    assert(core_unchanged(s1, *self));
                                },
                                _ => {},
                            }
                        }
                        return Ok(Some(AdvanceResult::CallEnd));
                    },
                }
            }
            if c == ',' {
                let _ = self.iter.next();
                let _ = self.iter.next();
                let n = self.calls.len();
                let call = vstd::std_specs::vec::vec_index_mut(&mut self.calls, n - 1);
                let mut finished: Vec<char> = Vec::new();
                core::mem::swap(&mut call.buf, &mut finished);
                call.args.push(finished);
                proof {
                    assert(self.calls@.drop_last() =~= old(self).calls@.drop_last());
                }
                return Ok(Some(AdvanceResult::NextArg));
            }
        }
        self.write(c);
        let _ = self.iter.next();
        Ok(Some(AdvanceResult::Normal))
    }

    /// Runs the scanner for at most `fuel` steps. `Ok(true)` means the
    /// stream is exhausted outside any quoted region or call; a stream
    /// that ends inside one is fatal instead; `Ok(false)` means the
    /// budget ran out first and the caller should call again. The final
    /// state is always reachable from the initial one by scanner steps
    /// (`advance_post` chains), the whole budget having been spent when
    /// the answer is `Ok(false)`. Termination itself is the macro
    /// author's responsibility: a macro whose body unconditionally
    /// re-invokes itself rescans forever, and the engine imposes no limit
    /// beyond the caller's budget.
    pub fn consume<B: Bridge>(&mut self, bridge: &mut B, fuel: u64) -> (r: Result<
        bool,
        EngineError,
    >)
        requires
            old(self).wf(),
        ensures
            final(self).wf(),
            (r == Result::<bool, EngineError>::Ok(true) ==> final(self).iter@.len() == 0 && final(self).quote_level == 0 && final(self).calls@.len() == 0),
            (fuel > 0 && old(self).iter@.len() == 0 && old(self).quote_level == 0 && old(self).calls@.len() == 0 ==> r == Result::<bool, EngineError>::Ok(true) && *final(self)
                == *old(self)),
            (fuel > 0 && old(self).iter@.len() == 0 && old(self).quote_level > 0 ==> r
                == Result::<bool, EngineError>::Err(EngineError::UnterminatedQuote) && *final(self) == *old(self)),
            (fuel > 0 && old(self).iter@.len() == 0 && old(self).quote_level == 0 && old(self).calls@.len() > 0 ==> r == Result::<bool, EngineError>::Err(
                EngineError::UnterminatedCall,
            ) && *final(self) == *old(self)),
            (r == Result::<bool, EngineError>::Err(EngineError::UnterminatedQuote) ==> final(self).iter@.len() == 0 && final(self).quote_level > 0),
            (r == Result::<bool, EngineError>::Err(EngineError::UnterminatedCall) ==> final(self).iter@.len() == 0 && final(self).quote_level == 0 && final(self).calls@.len() > 0),
            (r == Result::<bool, EngineError>::Ok(false) ==> reachable(
                *old(self),
                *final(self),
                fuel as nat,
            )),
            (exists|k: nat| k <= fuel && reachable(*old(self), *final(self), k)),
    {
        let mut k: u64 = 0;
        while k < fuel
            invariant
                self.wf(),
                k <= fuel,
                reachable(*old(self), *self, k as nat),
                old(self).iter@.len() == 0 ==> (*self == *old(self) && k == 0),
            decreases fuel - k,
        {
            let ghost pre_step = *self;
            match self.advance(bridge) {
                Err(e) => {
                    proof {
                        assert(advance_rel(pre_step, *self));
                        lemma_reachable_step(*old(self), pre_step, *self, k as nat);
                        assert(reachable(*old(self), *self, (k + 1) as nat));
                    }
                    return Err(e);
                },
                Ok(None) => {
                    if self.quote_level > 0 {
                        return Err(EngineError::UnterminatedQuote);
                    }
                    if self.calls.len() > 0 {
                        return Err(EngineError::UnterminatedCall);
                    }
                    return Ok(true);
                },
                Ok(Some(_)) => {
                    proof {
                        assert(advance_rel(pre_step, *self));
                        lemma_reachable_step(*old(self), pre_step, *self, k as nat);
                    }
                    k += 1;
                },
            }
        }
        Ok(false)
    }
}

/// Law of bare literal expansion: a literal macro referenced without
/// call syntax splices exactly the scope-bracketed body — no argument
/// bindings stand between the scope marker and the body, which is
/// rescanned as-is (so macro names inside it, including the macro's own
/// name, are resolved afresh at scan time). Together with the name
/// clause of `advance`, this pins what a bare reference feeds back into
/// the stream.
pub proof fn lemma_bare_literal_expansion(body: Seq<char>)
    ensures
        literal_expansion(body, Seq::<Seq<char>>::empty()) == scope_open() + body + scope_close(),
{
    assert(define_lines(Seq::<Seq<char>>::empty()) == Seq::<char>::empty());
    assert(scope_open() + Seq::<char>::empty() + body + scope_close() =~= scope_open() + body
        + scope_close());
}

/// Law of the empty call: calling a literal macro with an empty argument
/// list differs from the bare reference only in the `@arg0` binding (to
/// the empty text) that stands between the scope marker and the body —
/// bare reference and call differ only in whether argument bindings
/// exist.
pub proof fn lemma_no_arg_call_expansion(body: Seq<char>)
    ensures
        literal_expansion(body, seq![Seq::<char>::empty()]) == scope_open() + define_call(
            arg_name(0),
            Seq::<char>::empty(),
        ) + body + scope_close(),
{
    let args = seq![Seq::<char>::empty()];
    assert(args.drop_last() =~= Seq::<Seq<char>>::empty());
    assert(args.last() == Seq::<char>::empty());
    assert(define_lines(Seq::<Seq<char>>::empty()) == Seq::<char>::empty());
    assert(define_lines(args) == define_lines(args.drop_last()) + define_call(
        arg_name(0),
        args.last(),
    ));
    assert(define_lines(args) =~= define_call(arg_name(0), Seq::<char>::empty()));
    assert(scope_open() + define_lines(args) + body + scope_close() =~= scope_open() + define_call(
        arg_name(0),
        Seq::<char>::empty(),
    ) + body + scope_close());
}

/// What scanning a quoted region emits: starting at `depth > 0`, the
/// characters of `s` are taken one by one, each adjusting the depth, and
/// each is emitted unless it is the close that returns the depth to
/// zero. The result is the emitted text and the number of characters
/// consumed, or `None` when `s` ends before the region closes.
pub open spec fn quote_run(qs: char, qe: char, s: Seq<char>, depth: int) -> Option<
    (Seq<char>, nat),
>
    decreases s.len(),
{
    if depth <= 0 {
        Some((Seq::empty(), 0))
    } else if s.len() == 0 {
        None
    } else {
        let d2 = quote_next(qs, qe, depth, s[0]);
        let emitted = if d2 > 0 {
            seq![s[0]]
        } else {
            Seq::<char>::empty()
        };
        match quote_run(qs, qe, s.skip(1), d2) {
            Some(p) => Some((emitted + p.0, (p.1 + 1) as nat)),
            None => None,
        }
    }
}

/// A state transition that leaves the output targets alone extends them
/// by the empty text.
proof fn lemma_output_unchanged_extends_empty(pre: H4, post: H4)
    requires
        post.calls == pre.calls,
        post.outputs == pre.outputs,
    ensures
        output_extended(pre, post, Seq::<char>::empty()),
{
    if pre.calls@.len() > 0 {
        assert(post.calls@.last().buf@ =~= pre.calls@.last().buf@ + Seq::<char>::empty());
    } else {
        assert(post.outputs.spec_text(pre.current_output@) =~= pre.outputs.spec_text(
            pre.current_output@,
        ) + Seq::<char>::empty());
    }
}

/// Extending the output by `t1` and then by `t2` extends it by their
/// concatenation.
proof fn lemma_output_extended_trans(a: H4, b: H4, c: H4, t1: Seq<char>, t2: Seq<char>)
    requires
        output_extended(a, b, t1),
        output_extended(b, c, t2),
        b.current_output == a.current_output,
    ensures
        output_extended(a, c, t1 + t2),
{
    if a.calls@.len() > 0 {
        assert(b.calls@.len() == a.calls@.len());
        assert(c.calls@.last().buf@ =~= a.calls@.last().buf@ + (t1 + t2));
    } else {
        assert(b.calls@.len() == 0);
        assert(c.outputs.spec_text(a.current_output@) =~= a.outputs.spec_text(a.current_output@)
            + (t1 + t2));
    }
}

/// A defined quote run never consumes more than the text it was given.
proof fn lemma_quote_run_bound(qs: char, qe: char, s: Seq<char>, depth: int)
    requires
        quote_run(qs, qe, s, depth) is Some,
    ensures
        quote_run(qs, qe, s, depth).unwrap().1 <= s.len(),
    decreases s.len(),
{
    if depth > 0 && s.len() > 0 {
        lemma_quote_run_bound(qs, qe, s.skip(1), quote_next(qs, qe, depth, s[0]));
    }
}

/// A run of consecutive quote-mode steps.
pub open spec fn quote_chain(ss: Seq<H4>) -> bool
    decreases ss.len(),
{
    if ss.len() <= 1 {
        true
    } else {
        quote_step_rel(ss[0], ss[1]) && quote_chain(ss.skip(1))
    }
}

/// Law of the quote round trip. A chain of quote-mode steps (the quote
/// clause of `advance`) over a region whose quoting is balanced consumes
/// exactly the region, emits exactly its interior — every character at
/// positive depth, so balanced inner quote pairs are preserved verbatim
/// while the outermost close is stripped (the outermost open was
/// stripped when the region was entered) — ends at depth zero, and never
/// touches the binding store: no expansion is attempted on quoted text.
#[verifier::rlimit(100)]
#[verifier::spinoff_prover]
pub proof fn lemma_quote_round_trip(ss: Seq<H4>, t: Seq<char>, n: nat)
    requires
        ss.len() == n + 1,
        quote_chain(ss),
        ss[0].quote_level > 0,
        quote_run(ss[0].quote_start, ss[0].quote_end, ss[0].iter@, ss[0].quote_level as int)
            == Some((t, n)),
    ensures
        ss[n as int].quote_level == 0,
        ss[n as int].iter@ == ss[0].iter@.skip(n as int),
        ss[n as int].scopes == ss[0].scopes,
        ss[n as int].current_output == ss[0].current_output,
        output_extended(ss[0], ss[n as int], t),
    decreases n,
{
    let first = ss[0];
    let qs = first.quote_start;
    let qe = first.quote_end;
    let depth = first.quote_level as int;
    assert(first.iter@.len() > 0);
    let c = first.iter@[0];
    let d2 = quote_next(qs, qe, depth, c);
    assert(quote_step_rel(ss[0], ss[1]));
    let second = ss[1];
    let inner = quote_run(qs, qe, first.iter@.skip(1), d2);
    assert(inner is Some);
    let t_rest = inner.unwrap().0;
    let n_rest = inner.unwrap().1;
    assert(n == n_rest + 1);
    if d2 <= 0 {
        assert(d2 == 0);
        assert(n == 1);
        assert(t =~= Seq::<char>::empty());
        assert(second.quote_level == 0);
        lemma_output_unchanged_extends_empty(first, second);
    } else {
        let sub = ss.skip(1);
        assert(sub.len() == n_rest + 1);
        assert(quote_chain(sub));
        assert(sub[0] == second);
        assert(second.iter@ == first.iter@.skip(1));
        assert(second.quote_level == d2);
        lemma_quote_round_trip(sub, t_rest, n_rest);
        assert(sub[n_rest as int] == ss[n as int]);
        let last = ss[n as int];
        assert(last.iter@ == first.iter@.skip(1).skip(n_rest as int));
        lemma_quote_run_bound(qs, qe, first.iter@.skip(1), d2);
        assert(n_rest <= first.iter@.len() - 1);
        assert(first.iter@.skip(1).skip(n_rest as int) =~= first.iter@.skip(n as int));
        assert(output_extended(first, second, seq![c]));
        lemma_output_extended_trans(first, second, last, seq![c], t_rest);
        assert(t =~= seq![c] + t_rest);
    }
}



/// A run starting from an exhausted stream stays put: every further
/// scanner step reports end of input and changes nothing.
proof fn lemma_stall(s: H4, post: H4, k: nat)
    requires
        reachable(s, post, k),
        s.iter@.len() == 0,
    ensures
        post == s,
    decreases k,
{
    if k > 0 {
        let mid = choose|mid: H4|
            #[trigger] advance_rel(s, mid) && reachable(mid, post, (k - 1) as nat);
        let r = choose|r: Result<Option<AdvanceResult>, EngineError>|
            #[trigger] advance_post(s, mid, r);
        assert(mid == s);
        lemma_stall(s, post, (k - 1) as nat);
    }
}

/// From a state inside a quoted region that spans the whole remaining
/// input, a long enough run drains the region — emitting exactly what
/// `quote_run` says — and then idles at the exhausted stream.
proof fn lemma_quote_phase(s: H4, post: H4, k: nat, t: Seq<char>, n: nat)
    requires
        reachable(s, post, k),
        s.quote_level > 0,
        quote_run(s.quote_start, s.quote_end, s.iter@, s.quote_level as int) == Some((t, n)),
        s.iter@.len() == n,
        n <= k,
        s.quote_level + s.iter@.len() < usize::MAX,
    ensures
        post.iter@.len() == 0,
        post.quote_level == 0,
        post.scopes == s.scopes,
        post.current_output == s.current_output,
        output_extended(s, post, t),
    decreases k,
{
    assert(n >= 1);
    let c = s.iter@[0];
    let d2 = quote_next(s.quote_start, s.quote_end, s.quote_level as int, c);
    let mid = choose|mid: H4|
        #[trigger] advance_rel(s, mid) && reachable(mid, post, (k - 1) as nat);
    let r = choose|r: Result<Option<AdvanceResult>, EngineError>|
        #[trigger] advance_post(s, mid, r);
    assert(s.quote_level < usize::MAX);
    assert(quote_step_rel(s, mid));
    let inner = quote_run(s.quote_start, s.quote_end, s.iter@.skip(1), d2);
    assert(inner is Some);
    let t_rest = inner.unwrap().0;
    let n_rest = inner.unwrap().1;
    assert(n == n_rest + 1);
    if d2 <= 0 {
        assert(d2 == 0);
        assert(n == 1);
        assert(t =~= Seq::<char>::empty());
        assert(mid.iter@.len() == 0);
        assert(mid.quote_level == 0);
        lemma_stall(mid, post, (k - 1) as nat);
        lemma_output_unchanged_extends_empty(s, post);
    } else {
        assert(mid.iter@.len() == n_rest);
        lemma_quote_phase(mid, post, (k - 1) as nat, t_rest, n_rest);
        assert(output_extended(s, mid, seq![c]));
        lemma_output_extended_trans(s, mid, post, seq![c], t_rest);
        assert(t =~= seq![c] + t_rest);
    }
}

/// Law of the run-level quote round trip: a run (`consume`'s reachability
/// chains) over an input that is one balanced quoted region — the open
/// delimiter, the interior `w`, the close — ends with the stream
/// exhausted at depth zero, touches no bindings, and appends exactly `w`
/// to the current output: the outermost pair is stripped and nothing in
/// the interior is expanded.
pub proof fn lemma_run_quote_round_trip(pre: H4, post: H4, k: nat, w: Seq<char>)
    requires
        reachable(pre, post, k),
        pre.quote_level == 0,
        pre.iter@ == seq![pre.quote_start] + w + seq![pre.quote_end],
        quote_run(pre.quote_start, pre.quote_end, w + seq![pre.quote_end], 1) == Some(
            (w, (w.len() + 1) as nat),
        ),
        w.len() + 2 <= k,
        w.len() + 2 < usize::MAX,
    ensures
        post.iter@.len() == 0,
        post.quote_level == 0,
        post.scopes == pre.scopes,
        post.current_output == pre.current_output,
        output_extended(pre, post, w),
{
    assert(pre.iter@.len() == w.len() + 2);
    assert(pre.iter@[0] == pre.quote_start);
    let mid = choose|mid: H4|
        #[trigger] advance_rel(pre, mid) && reachable(mid, post, (k - 1) as nat);
    let r = choose|r: Result<Option<AdvanceResult>, EngineError>|
        #[trigger] advance_post(pre, mid, r);
    assert(mid.quote_level == 1);
    assert(mid.iter@ =~= w + seq![pre.quote_end]);
    lemma_quote_phase(mid, post, (k - 1) as nat, w, (w.len() + 1) as nat);
    lemma_output_unchanged_extends_empty(pre, mid);
    lemma_output_extended_trans(pre, mid, post, Seq::<char>::empty(), w);
    assert(Seq::<char>::empty() + w =~= w);
}

/// An interior without quote delimiters is trivially balanced: the run
/// over it emits it whole and consumes it plus the closing delimiter.
pub proof fn lemma_quote_run_plain_interior(qs: char, qe: char, w: Seq<char>)
    requires
        qs != qe,
        forall|i: int| 0 <= i < w.len() ==> #[trigger] w[i] != qs && w[i] != qe,
    ensures
        quote_run(qs, qe, w + seq![qe], 1) == Some((w, (w.len() + 1) as nat)),
    decreases w.len(),
{
    let s = w + seq![qe];
    if w.len() == 0 {
        assert(s[0] == qe);
        assert(quote_next(qs, qe, 1, qe) == 0);
        assert(s.skip(1) =~= Seq::<char>::empty());
        assert(quote_run(qs, qe, s.skip(1), 0) == Some((Seq::<char>::empty(), 0nat)));
        assert(Seq::<char>::empty() + Seq::<char>::empty() =~= w);
    } else {
        assert(s[0] == w[0]);
        assert(quote_next(qs, qe, 1, s[0]) == 1);
        let w2 = w.skip(1);
        assert(forall|i: int| 0 <= i < w2.len() ==> #[trigger] w2[i] != qs && w2[i] != qe);
        lemma_quote_run_plain_interior(qs, qe, w2);
        assert(s.skip(1) =~= w2 + seq![qe]);
        assert(seq![s[0]] + w2 =~= w);
    }
}

} // verus!
