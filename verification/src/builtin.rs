use vstd::prelude::*;

verus! {

use crate::h4::Bridge;
use crate::h4::EngineError;
use crate::h4::H4;
use crate::h4::build_iteration_block;
use crate::h4::iteration_blocks;
use crate::h4::keeps_surroundings;
use crate::h4::skip_one;
use crate::scopes::Binding;
use crate::scopes::BuiltinTag;
use crate::scopes::Value;
use crate::scopes::ValueView;
use crate::text::append_str;
use crate::text::append_text;
use crate::text::copy_text;
use crate::text::dec_rep;
use crate::text::dec_text;
use crate::text::int_text_value;
use crate::text::is_int_text;
use crate::text::parse_i32;
use crate::text::text_of;

/// Whether a builtin's result text is spliced back into the stream for
/// rescanning rather than written as literal output.
pub open spec fn rescans(tag: BuiltinTag) -> bool {
    tag == BuiltinTag::ForLoop || tag == BuiltinTag::Import
}

/// Binds `args[0]` as a literal macro with body `args[1]` in the
/// innermost scope, then advances the stream past one trailing character
/// (the newline that follows the call in generated expansion text).
pub fn builtin_define(h4: &mut H4, args: &Vec<Vec<char>>) -> (r: Result<Vec<char>, EngineError>)
    requires
        old(h4).wf(),
    ensures
        final(h4).wf(),
        keeps_surroundings(*old(h4), *final(h4)),
        args@.len() < 2 ==> r == Result::<Vec<char>, EngineError>::Err(
            EngineError::MissingArguments,
        ) && final(h4).scopes == old(h4).scopes && final(h4).iter == old(h4).iter,
        args@.len() >= 2 ==> ({
            &&& r matches Ok(t) && t@ == Seq::<char>::empty()
            &&& final(h4).iter@ == skip_one(old(h4).iter@)
            &&& final(h4).scopes.spec_get(args@[0]@) == Some(ValueView::Plain(args@[1]@))
            &&& (forall|n: Seq<char>|
                n != args@[0]@ ==> #[trigger] final(h4).scopes.spec_get(n) == old(h4).scopes.spec_get(n))
            &&& final(h4).scopes.slots@.len() == old(h4).scopes.slots@.len() + 1
            &&& final(h4).scopes.slots@.drop_last() == old(h4).scopes.slots@
            &&& final(h4).scopes.slots@.last()@ == ValueView::Plain(args@[1]@)
            &&& final(h4).scopes.frames@.len() == old(h4).scopes.frames@.len()
            &&& final(h4).scopes.frames@.drop_last() == old(h4).scopes.frames@.drop_last()
        }),
{
    if args.len() < 2 {
        return Err(EngineError::MissingArguments);
    }
    let body = copy_text(&args[1]);
    h4.scopes.let_variable(&args[0], Value::Plain(body));
    proof {
        assert(h4.scopes.slots@.drop_last() =~= old(h4).scopes.slots@);
    }
    let _ = h4.iter.next();
    Ok(Vec::new())
}

/// Evaluates `args[1]` as a script expression and binds `args[0]` to the
/// resulting script value in the innermost scope (fresh slot), then skips
/// one trailing character.
pub fn builtin_let<B: Bridge>(h4: &mut H4, bridge: &mut B, args: &Vec<Vec<char>>) -> (r: Result<
    Vec<char>,
    EngineError,
>)
    requires
        old(h4).wf(),
    ensures
        final(h4).wf(),
        keeps_surroundings(*old(h4), *final(h4)),
        args@.len() < 2 ==> r == Result::<Vec<char>, EngineError>::Err(
            EngineError::MissingArguments,
        ) && final(h4).scopes == old(h4).scopes && final(h4).iter == old(h4).iter,
        args@.len() >= 2 ==> ({
            &&& r matches Ok(t) && t@ == Seq::<char>::empty()
            &&& final(h4).iter@ == skip_one(old(h4).iter@)
            &&& (final(h4).scopes.spec_get(args@[0]@) matches Some(ValueView::Script(_)))
            &&& (forall|n: Seq<char>|
                n != args@[0]@ ==> #[trigger] final(h4).scopes.spec_get(n) == old(h4).scopes.spec_get(n))
            &&& final(h4).scopes.slots@.len() == old(h4).scopes.slots@.len() + 1
            &&& final(h4).scopes.slots@.drop_last() == old(h4).scopes.slots@
            &&& (final(h4).scopes.slots@.last()@ matches ValueView::Script(_))
            &&& final(h4).scopes.frames@.len() == old(h4).scopes.frames@.len()
            &&& final(h4).scopes.frames@.drop_last() == old(h4).scopes.frames@.drop_last()
        }),
{
    if args.len() < 2 {
        return Err(EngineError::MissingArguments);
    }
    let handle = bridge.evaluate(&args[1], &h4.scopes);
    h4.scopes.let_variable(&args[0], Value::Script(handle));
    proof {
        assert(h4.scopes.slots@.drop_last() =~= old(h4).scopes.slots@);
    }
    let _ = h4.iter.next();
    Ok(Vec::new())
}

/// Evaluates `args[1]` and assigns the resulting script value through the
/// nearest existing slot of `args[0]` (mutation, not shadowing); a silent
/// no-op when the name is unbound. Skips one trailing character.
pub fn builtin_set<B: Bridge>(h4: &mut H4, bridge: &mut B, args: &Vec<Vec<char>>) -> (r: Result<
    Vec<char>,
    EngineError,
>)
    requires
        old(h4).wf(),
    ensures
        final(h4).wf(),
        keeps_surroundings(*old(h4), *final(h4)),
        args@.len() < 2 ==> r == Result::<Vec<char>, EngineError>::Err(
            EngineError::MissingArguments,
        ) && final(h4).scopes == old(h4).scopes && final(h4).iter == old(h4).iter,
        args@.len() >= 2 ==> ({
            &&& r matches Ok(t) && t@ == Seq::<char>::empty()
            &&& final(h4).iter@ == skip_one(old(h4).iter@)
            &&& final(h4).scopes.frames@ == old(h4).scopes.frames@
            &&& (old(h4).scopes.lookup_handle(args@[0]@) is Some ==> (final(h4).scopes.spec_get(args@[0]@) matches Some(ValueView::Script(_))) && final(h4).scopes.slots@.len() == old(h4).scopes.slots@.len() && (exists|hh: u64|
                final(h4).scopes.slots@ == old(h4).scopes.slots@.update(
                    old(h4).scopes.lookup_handle(args@[0]@).unwrap(),
                    Value::Script(hh),
                )))
            &&& (old(h4).scopes.lookup_handle(args@[0]@) is None ==> final(h4).scopes.slots@
                == old(h4).scopes.slots@)
        }),
{
    if args.len() < 2 {
        return Err(EngineError::MissingArguments);
    }
    let handle = bridge.evaluate(&args[1], &h4.scopes);
    let _ = h4.scopes.set_variable(&args[0], Value::Script(handle));
    let _ = h4.iter.next();
    Ok(Vec::new())
}

/// Evaluates `args[0]` as a script expression and returns its display
/// text as literal output. The engine state is untouched.
pub fn builtin_jseval<B: Bridge>(h4: &mut H4, bridge: &mut B, args: &Vec<Vec<char>>) -> (r: Result<
    Vec<char>,
    EngineError,
>)
    requires
        old(h4).wf(),
    ensures
        *final(h4) == *old(h4),
        args@.len() < 1 ==> r == Result::<Vec<char>, EngineError>::Err(
            EngineError::MissingArguments,
        ),
        args@.len() >= 1 ==> r is Ok,
{
    if args.len() < 1 {
        return Err(EngineError::MissingArguments);
    }
    let handle = bridge.evaluate(&args[0], &h4.scopes);
    Ok(bridge.stringify(handle))
}

/// Same operation as `builtin_jseval`, under its other name.
pub fn builtin_get<B: Bridge>(h4: &mut H4, bridge: &mut B, args: &Vec<Vec<char>>) -> (r: Result<
    Vec<char>,
    EngineError,
>)
    requires
        old(h4).wf(),
    ensures
        *final(h4) == *old(h4),
        args@.len() < 1 ==> r == Result::<Vec<char>, EngineError>::Err(
            EngineError::MissingArguments,
        ),
        args@.len() >= 1 ==> r is Ok,
{
    builtin_jseval(h4, bridge, args)
}

/// Pushes a fresh scope; no binding changes. Skips one trailing
/// character.
pub fn builtin_push_scope(h4: &mut H4, args: &Vec<Vec<char>>) -> (r: Result<
    Vec<char>,
    EngineError,
>)
    requires
        old(h4).wf(),
    ensures
        final(h4).wf(),
        keeps_surroundings(*old(h4), *final(h4)),
        r matches Ok(t) && t@ == Seq::<char>::empty(),
        final(h4).iter@ == skip_one(old(h4).iter@),
        final(h4).scopes.frames@.len() == old(h4).scopes.frames@.len() + 1,
        final(h4).scopes.frames@.last()@ == Seq::<Binding>::empty(),
        final(h4).scopes.frames@.drop_last() == old(h4).scopes.frames@,
        final(h4).scopes.slots@ == old(h4).scopes.slots@,
        forall|n: Seq<char>| #[trigger]
            final(h4).scopes.spec_get(n) == old(h4).scopes.spec_get(n),
{
    h4.scopes.push_scope();
    let _ = h4.iter.next();
    Ok(Vec::new())
}

/// Pops the innermost scope; popping the global scope is fatal. Skips one
/// trailing character on success.
pub fn builtin_pop_scope(h4: &mut H4, args: &Vec<Vec<char>>) -> (r: Result<
    Vec<char>,
    EngineError,
>)
    requires
        old(h4).wf(),
    ensures
        final(h4).wf(),
        keeps_surroundings(*old(h4), *final(h4)),
        old(h4).scopes.frames@.len() > 1 ==> ({
            &&& r matches Ok(t) && t@ == Seq::<char>::empty()
            &&& final(h4).iter@ == skip_one(old(h4).iter@)
            &&& final(h4).scopes.frames@ == old(h4).scopes.frames@.drop_last()
            &&& final(h4).scopes.slots@ == old(h4).scopes.slots@
        }),
        old(h4).scopes.frames@.len() == 1 ==> ({
            &&& r == Result::<Vec<char>, EngineError>::Err(EngineError::ScopeUnderflow)
            &&& final(h4).iter == old(h4).iter
            &&& final(h4).scopes.frames@ == old(h4).scopes.frames@
            &&& final(h4).scopes.slots@ == old(h4).scopes.slots@
        }),
{
    match h4.scopes.pop_scope() {
        Ok(_) => {
            let _ = h4.iter.next();
            Ok(Vec::new())
        },
        Err(_) => Err(EngineError::ScopeUnderflow),
    }
}

/// How many stream characters `@skip` consumes: one with no argument,
/// else the argument parsed as an integer (zero when it does not parse or
/// is negative).
pub open spec fn skip_amount(args: Seq<Vec<char>>) -> int {
    if args.len() == 0 {
        1
    } else if is_int_text(args[0]@) && i32::MIN <= int_text_value(args[0]@) <= i32::MAX {
        if int_text_value(args[0]@) < 0 {
            0
        } else {
            int_text_value(args[0]@)
        }
    } else {
        0
    }
}

/// Advances the stream by a number of characters without emitting output.
pub fn builtin_skip(h4: &mut H4, args: &Vec<Vec<char>>) -> (r: Result<Vec<char>, EngineError>)
    requires
        old(h4).wf(),
    ensures
        final(h4).wf(),
        keeps_surroundings(*old(h4), *final(h4)),
        final(h4).scopes == old(h4).scopes,
        r matches Ok(t) && t@ == Seq::<char>::empty(),
        final(h4).iter@ == (if skip_amount(args@) <= old(h4).iter@.len() {
            old(h4).iter@.skip(skip_amount(args@))
        } else {
            Seq::<char>::empty()
        }),
{
    let times: i32 = if args.len() == 0 {
        1
    } else {
        match parse_i32(&args[0]) {
            Some(v) => v,
            None => 0,
        }
    };
    let n: usize = if times <= 0 {
        0
    } else {
        times as usize
    };
    assert(n == skip_amount(args@));
    let mut k: usize = 0;
    while k < n
        invariant
            k <= n,
            n == skip_amount(args@),
            old(h4).wf(),
            h4.scopes == old(h4).scopes,
            keeps_surroundings(*old(h4), *h4),
            h4.iter@ == (if k <= old(h4).iter@.len() {
                old(h4).iter@.skip(k as int)
            } else {
                Seq::<char>::empty()
            }),
        decreases n - k,
    {
        let _ = h4.iter.next();
        proof {
            if k < old(h4).iter@.len() {
                assert(old(h4).iter@.skip(k as int).skip(1) =~= old(h4).iter@.skip(k + 1));
            } else {
                assert(h4.iter@ =~= Seq::<char>::empty());
            }
        }
        k += 1;
    }
    Ok(Vec::new())
}

/// The text a finished file read contributes: the file's contents, or a
/// quoted placeholder naming the failure.
pub fn import_result_text(res: &Result<Vec<char>, Vec<char>>) -> (r: Vec<char>)
    ensures
        (res matches Ok(c) ==> r@ == c@),
        (res matches Err(e) ==> r@ == "`Could not read file "@ + e@ + "'"@),
{
    match res {
        Ok(c) => copy_text(c),
        Err(e) => {
            let mut r = text_of("`Could not read file ");
            append_text(&mut r, e);
            append_str(&mut r, "'");
            r
        },
    }
}

/// Reads the named file and returns its contents for splicing into the
/// stream; failures become a quoted placeholder instead of aborting the
/// run. Skips one trailing character.
pub fn builtin_import<B: Bridge>(h4: &mut H4, bridge: &mut B, args: &Vec<Vec<char>>) -> (r: Result<
    Vec<char>,
    EngineError,
>)
    requires
        old(h4).wf(),
    ensures
        final(h4).wf(),
        keeps_surroundings(*old(h4), *final(h4)),
        final(h4).scopes == old(h4).scopes,
        final(h4).iter@ == skip_one(old(h4).iter@),
        r is Ok,
        args@.len() == 0 ==> (r matches Ok(t) && t@ == "`No file provided'"@),
{
    let t = if args.len() == 0 {
        text_of("`No file provided'")
    } else {
        let res = bridge.read_file(&args[0]);
        import_result_text(&res)
    };
    let _ = h4.iter.next();
    Ok(t)
}

/// `s` with one trailing newline removed, as the shell builtin trims its
/// command output.
pub open spec fn trim_newline(s: Seq<char>) -> Seq<char> {
    if s.len() > 0 && s.last() == '\n' {
        s.drop_last()
    } else {
        s
    }
}

/// The text a finished shell command contributes: its standard output
/// with one trailing newline trimmed, or a quoted placeholder naming the
/// failure.
pub fn shell_result_text(res: &Result<Vec<char>, Vec<char>>) -> (r: Vec<char>)
    ensures
        (res matches Ok(out) ==> r@ == trim_newline(out@)),
        (res matches Err(e) ==> r@ == "`Program exited with error: "@ + e@ + "'"@),
{
    match res {
        Ok(out) => {
            let mut t = copy_text(out);
            let n = t.len();
            if n > 0 {
                if t[n - 1] == '\n' {
                    let _ = t.pop();
                }
            }
            t
        },
        Err(e) => {
            let mut r = text_of("`Program exited with error: ");
            append_text(&mut r, e);
            append_str(&mut r, "'");
            r
        },
    }
}

/// Runs a host shell command and returns its trimmed output as literal
/// output; failures become a quoted placeholder. The engine state is
/// untouched.
pub fn builtin_shell<B: Bridge>(h4: &mut H4, bridge: &mut B, args: &Vec<Vec<char>>) -> (r: Result<
    Vec<char>,
    EngineError,
>)
    requires
        old(h4).wf(),
    ensures
        *final(h4) == *old(h4),
        r is Ok,
        args@.len() == 0 ==> (r matches Ok(t) && t@ == "`Command not found'"@),
{
    if args.len() == 0 {
        return Ok(text_of("`Command not found'"));
    }
    let res = bridge.run_shell(&args[0]);
    Ok(shell_result_text(&res))
}

/// Iterates a bound sequence value: for each element, in order, one
/// private-scope block binding `args[0]` to the element's display text
/// around the body `args[2]`, all concatenated for rescanning. Anything
/// but a bound sequence value is fatal.
pub fn builtin_for<B: Bridge>(h4: &mut H4, bridge: &mut B, args: &Vec<Vec<char>>) -> (r: Result<
    Vec<char>,
    EngineError,
>)
    requires
        old(h4).wf(),
    ensures
        *final(h4) == *old(h4),
        args@.len() < 3 ==> r == Result::<Vec<char>, EngineError>::Err(
            EngineError::MissingArguments,
        ),
        args@.len() >= 3 ==> match old(h4).scopes.spec_get(args@[1]@) {
            None => r == Result::<Vec<char>, EngineError>::Err(EngineError::UnboundIterationName),
            Some(ValueView::Plain(_)) => r == Result::<Vec<char>, EngineError>::Err(
                EngineError::BadIterationTarget,
            ),
            Some(ValueView::Builtin(_)) => r == Result::<Vec<char>, EngineError>::Err(
                EngineError::BadIterationTarget,
            ),
            Some(ValueView::Script(_)) => ({
                ||| r == Result::<Vec<char>, EngineError>::Err(EngineError::BadIterationTarget)
                ||| (r matches Ok(t) && (exists|items: Seq<Seq<char>>|
                    t@ == iteration_blocks(args@[0]@, items, args@[2]@)))
            }),
        },
{
    if args.len() < 3 {
        return Err(EngineError::MissingArguments);
    }
    match h4.scopes.get_variable(&args[1]) {
        None => Err(EngineError::UnboundIterationName),
        Some(Value::Plain(_)) => Err(EngineError::BadIterationTarget),
        Some(Value::Builtin(_)) => Err(EngineError::BadIterationTarget),
        Some(Value::Script(handle)) => {
            if !bridge.is_sequence(handle) {
                return Err(EngineError::BadIterationTarget);
            }
            let els = bridge.sequence_elements(handle);
            let mut out: Vec<char> = Vec::new();
            let ghost mut items: Seq<Seq<char>> = Seq::empty();
            let mut i: usize = 0;
            while i < els.len()
                invariant
                    i <= els@.len(),
                    items.len() == i,
                    out@ == iteration_blocks(args@[0]@, items, args@[2]@),
                    args@.len() >= 3,
                decreases els@.len() - i,
            {
                let s = bridge.stringify(els[i]);
                let block = build_iteration_block(&args[0], &s, &args[2]);
                append_text(&mut out, &block);
                proof {
                    let prev = items;
                    items = items.push(s@);
                    assert(items.drop_last() =~= prev);
                    assert(items.last() == s@);
                }
                i += 1;
            }
            Ok(out)
        },
    }
}

/// The display form of the value in slot `h` as the diagnostic dump shows
/// it.
pub open spec fn value_repr(slots: Seq<Value>, h: int) -> Seq<char> {
    if 0 <= h < slots.len() {
        match slots[h]@ {
            ValueView::Plain(t) => t,
            ValueView::Builtin(_) => "<Builtin>"@,
            ValueView::Script(_) => "<Script>"@,
        }
    } else {
        Seq::empty()
    }
}

/// The dump lines of one frame, oldest binding first.
pub open spec fn dump_frame_text(es: Seq<Binding>, slots: Seq<Value>) -> Seq<char>
    decreases es.len(),
{
    if es.len() == 0 {
        Seq::empty()
    } else {
        dump_frame_text(es.drop_last(), slots) + es.last().name@ + ": "@ + value_repr(
            slots,
            es.last().slot as int,
        ) + "\n"@
    }
}

/// The header line of frame `f` in the dump.
pub open spec fn stack_header(f: nat) -> Seq<char> {
    "Stack "@ + dec_rep(f) + ":\n"@
}

/// The full dump text: every frame, global first, each under its header.
pub open spec fn dump_frames_text(frames: Seq<Vec<Binding>>, slots: Seq<Value>) -> Seq<char>
    decreases frames.len(),
{
    if frames.len() == 0 {
        Seq::empty()
    } else {
        dump_frames_text(frames.drop_last(), slots) + stack_header((frames.len() - 1) as nat)
            + dump_frame_text(frames.last()@, slots)
    }
}

/// Prints the full binding store, frame by frame, to the `stdout` buffer
/// for diagnostics. Skips one trailing character.
pub fn builtin_dump(h4: &mut H4, args: &Vec<Vec<char>>) -> (r: Result<Vec<char>, EngineError>)
    requires
        old(h4).wf(),
    ensures
        final(h4).wf(),
        final(h4).scopes == old(h4).scopes,
        final(h4).calls == old(h4).calls,
        final(h4).current_output == old(h4).current_output,
        final(h4).quote_level == old(h4).quote_level,
        final(h4).quote_start == old(h4).quote_start,
        final(h4).quote_end == old(h4).quote_end,
        final(h4).iter@ == skip_one(old(h4).iter@),
        r matches Ok(t) && t@ == Seq::<char>::empty(),
        final(h4).outputs.spec_text("stdout"@) == old(h4).outputs.spec_text("stdout"@)
            + dump_frames_text(old(h4).scopes.frames@, old(h4).scopes.slots@),
        forall|m: Seq<char>|
            m != "stdout"@ ==> #[trigger] final(h4).outputs.spec_text(m) == old(h4).outputs.spec_text(m),
{
    let mut t: Vec<char> = Vec::new();
    let ghost frames = h4.scopes.frames@;
    let ghost slots = h4.scopes.slots@;
    let mut f: usize = 0;
    while f < h4.scopes.frames.len()
        invariant
            f <= frames.len(),
            frames == h4.scopes.frames@,
            slots == h4.scopes.slots@,
            h4 == old(h4),
            old(h4).wf(),
            t@ == dump_frames_text(frames.take(f as int), slots),
        decreases frames.len() - f,
    {
        append_str(&mut t, "Stack ");
        let d = dec_text(f as u64);
        append_text(&mut t, &d);
        append_str(&mut t, ":\n");
        let ghost t_at_header = t@;
        let mut i: usize = 0;
        while i < h4.scopes.frames[f].len()
            invariant
                f < frames.len(),
                i <= frames[f as int]@.len(),
                frames == h4.scopes.frames@,
                slots == h4.scopes.slots@,
                h4 == old(h4),
                old(h4).wf(),
                t_at_header == dump_frames_text(frames.take(f as int), slots) + stack_header(
                    f as nat,
                ),
                t@ == t_at_header + dump_frame_text(frames[f as int]@.take(i as int), slots),
            decreases frames[f as int]@.len() - i,
        {
            let es = &h4.scopes.frames[f];
            append_text(&mut t, &es[i].name);
            append_str(&mut t, ": ");
            assert(es@[i as int].slot < slots.len());
            match &h4.scopes.slots[es[i].slot] {
                Value::Plain(s) => append_text(&mut t, s),
                Value::Builtin(_) => append_str(&mut t, "<Builtin>"),
                Value::Script(_) => append_str(&mut t, "<Script>"),
            }
            append_str(&mut t, "\n");
            proof {
                let pre = frames[f as int]@.take(i as int);
                let post = frames[f as int]@.take(i + 1);
                assert(post.drop_last() =~= pre);
                assert(post.last() == frames[f as int]@[i as int]);
                assert(t@ =~= t_at_header + dump_frame_text(post, slots));
            }
            i += 1;
        }
        proof {
            assert(frames[f as int]@.take(frames[f as int]@.len() as int) =~= frames[f as int]@);
            let pre = frames.take(f as int);
            let post = frames.take(f + 1);
            assert(post.drop_last() =~= pre);
            assert(post.last() == frames[f as int]);
            assert(t@ =~= dump_frames_text(post, slots));
        }
        f += 1;
    }
    assert(frames.take(frames.len() as int) =~= frames);
    let stdout_name = text_of("stdout");
    h4.outputs.append_text(&stdout_name, &t);
    let _ = h4.iter.next();
    Ok(Vec::new())
}

/// What dispatching the builtin with tag `tag` over `args` did: the
/// per-tag postcondition, mirroring each builtin's own contract, so that
/// callers that only see the dispatch still know the full effect.
pub open spec fn builtin_post(
    tag: BuiltinTag,
    pre: H4,
    post: H4,
    args: Seq<Vec<char>>,
    r: Result<Vec<char>, EngineError>,
) -> bool {
    match tag {
        BuiltinTag::Define => {
            &&& keeps_surroundings(pre, post)
            &&& (args.len() < 2 ==> r == Result::<Vec<char>, EngineError>::Err(
                EngineError::MissingArguments,
            ) && post.scopes == pre.scopes && post.iter == pre.iter)
            &&& (args.len() >= 2 ==> ({
                &&& r matches Ok(t) && t@ == Seq::<char>::empty()
                &&& post.iter@ == skip_one(pre.iter@)
                &&& post.scopes.spec_get(args[0]@) == Some(ValueView::Plain(args[1]@))
                &&& (forall|n: Seq<char>|
                    n != args[0]@ ==> #[trigger] post.scopes.spec_get(n) == pre.scopes.spec_get(n))
                &&& post.scopes.slots@.len() == pre.scopes.slots@.len() + 1
                &&& post.scopes.slots@.drop_last() == pre.scopes.slots@
                &&& post.scopes.slots@.last()@ == ValueView::Plain(args[1]@)
                &&& post.scopes.frames@.len() == pre.scopes.frames@.len()
                &&& post.scopes.frames@.drop_last() == pre.scopes.frames@.drop_last()
            }))
        },
        BuiltinTag::LetVar => {
            &&& keeps_surroundings(pre, post)
            &&& (args.len() < 2 ==> r == Result::<Vec<char>, EngineError>::Err(
                EngineError::MissingArguments,
            ) && post.scopes == pre.scopes && post.iter == pre.iter)
            &&& (args.len() >= 2 ==> ({
                &&& r matches Ok(t) && t@ == Seq::<char>::empty()
                &&& post.iter@ == skip_one(pre.iter@)
                &&& (post.scopes.spec_get(args[0]@) matches Some(ValueView::Script(_)))
                &&& (forall|n: Seq<char>|
                    n != args[0]@ ==> #[trigger] post.scopes.spec_get(n) == pre.scopes.spec_get(n))
                &&& post.scopes.slots@.len() == pre.scopes.slots@.len() + 1
                &&& post.scopes.slots@.drop_last() == pre.scopes.slots@
                &&& (post.scopes.slots@.last()@ matches ValueView::Script(_))
                &&& post.scopes.frames@.len() == pre.scopes.frames@.len()
                &&& post.scopes.frames@.drop_last() == pre.scopes.frames@.drop_last()
            }))
        },
        BuiltinTag::SetVar => {
            &&& keeps_surroundings(pre, post)
            &&& (args.len() < 2 ==> r == Result::<Vec<char>, EngineError>::Err(
                EngineError::MissingArguments,
            ) && post.scopes == pre.scopes && post.iter == pre.iter)
            &&& (args.len() >= 2 ==> ({
                &&& r matches Ok(t) && t@ == Seq::<char>::empty()
                &&& post.iter@ == skip_one(pre.iter@)
                &&& post.scopes.frames@ == pre.scopes.frames@
                &&& (pre.scopes.lookup_handle(args[0]@) is Some ==> (post.scopes.spec_get(
                    args[0]@,
                ) matches Some(ValueView::Script(_))) && post.scopes.slots@.len()
                    == pre.scopes.slots@.len() && (exists|hh: u64|
                    post.scopes.slots@ == pre.scopes.slots@.update(
                        pre.scopes.lookup_handle(args[0]@).unwrap(),
                        Value::Script(hh),
                    )))
                &&& (pre.scopes.lookup_handle(args[0]@) is None ==> post.scopes.slots@
                    == pre.scopes.slots@)
            }))
        },
        BuiltinTag::JsEval => {
            &&& post == pre
            &&& (args.len() < 1 ==> r == Result::<Vec<char>, EngineError>::Err(
                EngineError::MissingArguments,
            ))
            &&& (args.len() >= 1 ==> r is Ok)
        },
        BuiltinTag::GetVar => {
            &&& post == pre
            &&& (args.len() < 1 ==> r == Result::<Vec<char>, EngineError>::Err(
                EngineError::MissingArguments,
            ))
            &&& (args.len() >= 1 ==> r is Ok)
        },
        BuiltinTag::PushScope => {
            &&& keeps_surroundings(pre, post)
            &&& r matches Ok(t) && t@ == Seq::<char>::empty()
            &&& post.iter@ == skip_one(pre.iter@)
            &&& post.scopes.frames@.len() == pre.scopes.frames@.len() + 1
            &&& post.scopes.frames@.last()@ == Seq::<Binding>::empty()
            &&& post.scopes.frames@.drop_last() == pre.scopes.frames@
            &&& post.scopes.slots@ == pre.scopes.slots@
            &&& (forall|n: Seq<char>| #[trigger]
                post.scopes.spec_get(n) == pre.scopes.spec_get(n))
        },
        BuiltinTag::PopScope => {
            &&& keeps_surroundings(pre, post)
            &&& (pre.scopes.frames@.len() > 1 ==> ({
                &&& r matches Ok(t) && t@ == Seq::<char>::empty()
                &&& post.iter@ == skip_one(pre.iter@)
                &&& post.scopes.frames@ == pre.scopes.frames@.drop_last()
                &&& post.scopes.slots@ == pre.scopes.slots@
            }))
            &&& (pre.scopes.frames@.len() == 1 ==> ({
                &&& r == Result::<Vec<char>, EngineError>::Err(EngineError::ScopeUnderflow)
                &&& post.iter == pre.iter
                &&& post.scopes.frames@ == pre.scopes.frames@
                &&& post.scopes.slots@ == pre.scopes.slots@
            }))
        },
        BuiltinTag::Skip => {
            &&& keeps_surroundings(pre, post)
            &&& post.scopes == pre.scopes
            &&& r matches Ok(t) && t@ == Seq::<char>::empty()
            &&& post.iter@ == (if skip_amount(args) <= pre.iter@.len() {
                pre.iter@.skip(skip_amount(args))
            } else {
                Seq::<char>::empty()
            })
        },
        BuiltinTag::Import => {
            &&& keeps_surroundings(pre, post)
            &&& post.scopes == pre.scopes
            &&& post.iter@ == skip_one(pre.iter@)
            &&& r is Ok
            &&& (args.len() == 0 ==> (r matches Ok(t) && t@ == "`No file provided'"@))
        },
        BuiltinTag::Shell => {
            &&& post == pre
            &&& r is Ok
            &&& (args.len() == 0 ==> (r matches Ok(t) && t@ == "`Command not found'"@))
        },
        BuiltinTag::ForLoop => {
            &&& post == pre
            &&& (args.len() < 3 ==> r == Result::<Vec<char>, EngineError>::Err(
                EngineError::MissingArguments,
            ))
            &&& (args.len() >= 3 ==> match pre.scopes.spec_get(args[1]@) {
                None => r == Result::<Vec<char>, EngineError>::Err(
                    EngineError::UnboundIterationName,
                ),
                Some(ValueView::Plain(_)) => r == Result::<Vec<char>, EngineError>::Err(
                    EngineError::BadIterationTarget,
                ),
                Some(ValueView::Builtin(_)) => r == Result::<Vec<char>, EngineError>::Err(
                    EngineError::BadIterationTarget,
                ),
                Some(ValueView::Script(_)) => ({
                    ||| r == Result::<Vec<char>, EngineError>::Err(
                        EngineError::BadIterationTarget,
                    )
                    ||| (r matches Ok(t) && (exists|items: Seq<Seq<char>>|
                        t@ == crate::h4::iteration_blocks(args[0]@, items, args[2]@)))
                }),
            })
        },
        BuiltinTag::Dump => {
            &&& post.scopes == pre.scopes
            &&& post.calls == pre.calls
            &&& post.current_output == pre.current_output
            &&& post.quote_level == pre.quote_level
            &&& post.quote_start == pre.quote_start
            &&& post.quote_end == pre.quote_end
            &&& post.iter@ == skip_one(pre.iter@)
            &&& r matches Ok(t) && t@ == Seq::<char>::empty()
            &&& post.outputs.spec_text("stdout"@) == pre.outputs.spec_text("stdout"@)
                + dump_frames_text(pre.scopes.frames@, pre.scopes.slots@)
            &&& (forall|m: Seq<char>|
                m != "stdout"@ ==> #[trigger] post.outputs.spec_text(m) == pre.outputs.spec_text(
                    m,
                ))
        },
    }
}

/// Dispatches one builtin by its tag.
pub fn run_builtin<B: Bridge>(
    h4: &mut H4,
    bridge: &mut B,
    tag: BuiltinTag,
    args: &Vec<Vec<char>>,
) -> (r: Result<Vec<char>, EngineError>)
    requires
        old(h4).wf(),
    ensures
        final(h4).wf(),
        final(h4).calls == old(h4).calls,
        final(h4).current_output == old(h4).current_output,
        final(h4).quote_level == old(h4).quote_level,
        final(h4).quote_start == old(h4).quote_start,
        final(h4).quote_end == old(h4).quote_end,
        final(h4).scopes.slots@.len() >= old(h4).scopes.slots@.len(),
        tag != BuiltinTag::Dump ==> final(h4).outputs == old(h4).outputs,
        builtin_post(tag, *old(h4), *final(h4), args@, r),
{
    match tag {
        BuiltinTag::Define => builtin_define(h4, args),
        BuiltinTag::Dump => builtin_dump(h4, args),
        BuiltinTag::PushScope => builtin_push_scope(h4, args),
        BuiltinTag::PopScope => builtin_pop_scope(h4, args),
        BuiltinTag::Skip => builtin_skip(h4, args),
        BuiltinTag::JsEval => builtin_jseval(h4, bridge, args),
        BuiltinTag::LetVar => builtin_let(h4, bridge, args),
        BuiltinTag::SetVar => builtin_set(h4, bridge, args),
        BuiltinTag::GetVar => builtin_get(h4, bridge, args),
        BuiltinTag::Shell => builtin_shell(h4, bridge, args),
        BuiltinTag::Import => builtin_import(h4, bridge, args),
        BuiltinTag::ForLoop => builtin_for(h4, bridge, args),
    }
}

} // verus!
