use vstd::prelude::*;

use crate::tokenizer::{
    after_marker, arguments_only, before_marker, before_redirection, contains_seq,
    from_redirection, groups_of, quote_join, str_eq, tokens_of, Tokenizer,
};

verus! {

/// One command of a pipeline: its argument vector and its optional input
/// and output redirection targets.
pub struct Segment {
    pub argv: Vec<String>,
    pub input: Option<String>,
    pub output: Option<String>,
}

/// A compile-time error: a segment names more than one input or more than
/// one output redirection, or carries stray text among its redirections.
#[derive(Debug, PartialEq, Eq)]
pub enum CompileError {
    MalformedRedirection,
}

/// One step of a compiled line: a builtin invocation (handed its token
/// stream whole), a single external command, or a source and a sink joined
/// by a pipe.
pub enum Step {
    Builtin(Tokenizer),
    Single(Segment),
    Piped(Segment, Segment),
}

/// The mathematical content of a `Segment`.
pub struct SegmentModel {
    pub argv: Seq<Seq<char>>,
    pub input: Option<Seq<char>>,
    pub output: Option<Seq<char>>,
}

/// The mathematical content of a `Step`.
pub enum StepModel {
    Builtin(Seq<Seq<char>>),
    Single(SegmentModel),
    Piped(SegmentModel, SegmentModel),
}

/// The contents of an optional string.
pub open spec fn opt_str_view(o: Option<String>) -> Option<Seq<char>> {
    match o {
        Some(s) => Some(s@),
        None => None,
    }
}

impl Segment {
    /// The mathematical content of this segment.
    pub open spec fn model(self) -> SegmentModel {
        SegmentModel {
            argv: self.argv.deep_view(),
            input: opt_str_view(self.input),
            output: opt_str_view(self.output),
        }
    }
}

/// Interpret the tokens that follow a segment's argument vector: an
/// alternation of redirection operators and their target paths, scanned
/// left to right into at most one input and at most one output target.  A
/// second operator of a kind already seen is an error, as is a token that
/// is no operator where one is expected; a trailing operator with no path
/// is ignored.
pub open spec fn parse_redirections(
    ts: Seq<Seq<char>>,
    inp: Option<Seq<char>>,
    out: Option<Seq<char>>,
) -> Result<(Option<Seq<char>>, Option<Seq<char>>), CompileError>
    decreases ts.len(),
{
    if ts.len() == 0 {
        Ok((inp, out))
    } else if ts[0] == "<"@ {
        if inp is Some {
            Err(CompileError::MalformedRedirection)
        } else if ts.len() == 1 {
            Ok((inp, out))
        } else {
            parse_redirections(ts.skip(2), Some(ts[1]), out)
        }
    } else if ts[0] == ">"@ {
        if out is Some {
            Err(CompileError::MalformedRedirection)
        } else if ts.len() == 1 {
            Ok((inp, out))
        } else {
            parse_redirections(ts.skip(2), inp, Some(ts[1]))
        }
    } else {
        Err(CompileError::MalformedRedirection)
    }
}

/// The argument vector of a segment: the tokens before the first
/// redirection operator when the line carries one, else the argument
/// tokens before the sequencing marker (stray operator tokens there name
/// no argument).
pub open spec fn segment_argv(ts: Seq<Seq<char>>, redirected: bool) -> Seq<Seq<char>> {
    if redirected {
        before_redirection(ts)
    } else {
        arguments_only(before_marker(ts, "&&"@))
    }
}

/// The tokens a segment's redirection scan sees, after its argument vector.
pub open spec fn segment_rest(ts: Seq<Seq<char>>, redirected: bool) -> Seq<Seq<char>> {
    if redirected {
        from_redirection(ts)
    } else {
        after_marker(ts, "&&"@)
    }
}

/// Compiling one segment from its tokens, under the stream's redirection
/// flag.
pub open spec fn segment_model(ts: Seq<Seq<char>>, redirected: bool) -> Result<
    SegmentModel,
    CompileError,
> {
    match parse_redirections(segment_rest(ts, redirected), None, None) {
        Ok(io) => Ok(
            SegmentModel { argv: segment_argv(ts, redirected), input: io.0, output: io.1 },
        ),
        Err(e) => Err(e),
    }
}

/// Compiling a two-stage pipeline: the tokens before the first `|` form
/// the source, the tokens after it the sink.  The sink inherits the
/// stream's redirection flag; the source's is recomputed from its
/// re-rendered text.  The sink is compiled first, so its error wins.
pub open spec fn pipeline_model(ts: Seq<Seq<char>>, redirected: bool) -> Result<
    (SegmentModel, SegmentModel),
    CompileError,
> {
    let left = before_marker(ts, "|"@);
    let right = after_marker(ts, "|"@);
    let left_line = quote_join(left);
    let left_redirected = contains_seq(left_line, " >"@) || contains_seq(left_line, " < "@);
    match segment_model(right, redirected) {
        Err(e) => Err(e),
        Ok(sink) => match segment_model(left, left_redirected) {
            Err(e) => Err(e),
            Ok(source) => Ok((source, sink)),
        },
    }
}

/// A builtin name: these commands run in-process instead of being spawned.
pub open spec fn spec_is_builtin(t: Seq<char>) -> bool {
    t == "cd"@ || t == "source"@ || t == "touch"@ || t == "history"@
}

/// Compiling one `&&`-delimited group of tokens: a builtin segment is
/// handed over whole; otherwise the group is compiled as a pipeline or as
/// a single segment, under the flags of its re-rendered text.
pub open spec fn step_model_of_group(g: Seq<Seq<char>>) -> Result<StepModel, CompileError> {
    let line = quote_join(g);
    let piped = contains_seq(line, " | "@);
    let redirected = contains_seq(line, " >"@) || contains_seq(line, " < "@);
    if g.len() > 0 && spec_is_builtin(g[0]) {
        Ok(StepModel::Builtin(g))
    } else if piped {
        match pipeline_model(g, redirected) {
            Ok(p) => Ok(StepModel::Piped(p.0, p.1)),
            Err(e) => Err(e),
        }
    } else {
        match segment_model(g, redirected) {
            Ok(s) => Ok(StepModel::Single(s)),
            Err(e) => Err(e),
        }
    }
}

/// A compiled step carries exactly the content its model prescribes.
pub open spec fn step_matches(r: Result<Step, CompileError>, m: Result<
    StepModel,
    CompileError,
>) -> bool {
    match (r, m) {
        (Ok(Step::Builtin(t)), Ok(StepModel::Builtin(g))) => t.tokens() == g && t.current is Some
            && t.remaining() == quote_join(g) && t.piped == contains_seq(quote_join(g), " | "@)
            && t.redirected == (contains_seq(quote_join(g), " >"@) || contains_seq(
            quote_join(g),
            " < "@,
        )),
        (Ok(Step::Single(seg)), Ok(StepModel::Single(sm))) => seg.model() == sm,
        (Ok(Step::Piped(so, si)), Ok(StepModel::Piped(smo, smi))) => so.model() == smo
            && si.model() == smi,
        (Err(e1), Err(e2)) => e1 == e2,
        _ => false,
    }
}


/// Is a trimmed input line worth compiling?  Anything shorter than two
/// characters is rejected before the compile loop sees it.
pub fn is_valid_command_line(line: &str) -> (r: bool)
    ensures
        r == (line@.len() >= 2),
{
    line.unicode_len() >= 2
}

/// Is `name` one of the statically registered builtin commands?
pub fn is_builtin(name: &str) -> (r: bool)
    ensures
        r == spec_is_builtin(name@),
{
    str_eq(name, "cd") || str_eq(name, "source") || str_eq(name, "touch") || str_eq(
        name,
        "history",
    )
}

/// Compile one segment: collect its argument vector, then scan its
/// redirections.  A second `<` or `>` in the same segment is a
/// `MalformedRedirection` error, and nothing is handed back to spawn.
pub fn compile_segment(tok: &mut Tokenizer) -> (r: Result<Segment, CompileError>)
    ensures
        match r {
            Ok(seg) => segment_model(old(tok).tokens(), old(tok).redirected) == Ok::<
                SegmentModel,
                CompileError,
            >(seg.model()),
            Err(e) => segment_model(old(tok).tokens(), old(tok).redirected) == Err::<
                SegmentModel,
                CompileError,
            >(e),
        },
{
    let argv = tok.args_before_redirection();
    let mut input: Option<String> = None;
    let mut output: Option<String> = None;
    let ghost rest0 = tok.tokens();
    proof {
        assert(rest0 == segment_rest(old(tok).tokens(), old(tok).redirected));
    }
    loop
        invariant_except_break
            parse_redirections(rest0, None, None) == parse_redirections(
                tok.tokens(),
                opt_str_view(input),
                opt_str_view(output),
            ),
        invariant
            rest0 == segment_rest(old(tok).tokens(), old(tok).redirected),
        ensures
            parse_redirections(rest0, None, None) == Ok::<_, CompileError>(
                (opt_str_view(input), opt_str_view(output)),
            ),
        decreases tok.measure(),
    {
        let ghost pre = tok.tokens();
        match tok.next() {
            None => {
                break;
            },
            Some(t) => {
                if str_eq(t.as_str(), "<") {
                    if input.is_some() {
                        proof {
                            assert(parse_redirections(pre, opt_str_view(input), opt_str_view(output))
                                == Err::<(Option<Seq<char>>, Option<Seq<char>>), CompileError>(
                                CompileError::MalformedRedirection,
                            ));
                        }
                        return Err(CompileError::MalformedRedirection);
                    }
                    match tok.next() {
                        None => {
                            break;
                        },
                        Some(p) => {
                            proof {
                                assert(pre.skip(2) =~= pre.drop_first().drop_first());
                                assert(p@ == pre[1]);
                            }
                            input = Some(p);
                        },
                    }
                } else if str_eq(t.as_str(), ">") {
                    if output.is_some() {
                        proof {
                            assert(parse_redirections(pre, opt_str_view(input), opt_str_view(output))
                                == Err::<(Option<Seq<char>>, Option<Seq<char>>), CompileError>(
                                CompileError::MalformedRedirection,
                            ));
                        }
                        return Err(CompileError::MalformedRedirection);
                    }
                    match tok.next() {
                        None => {
                            break;
                        },
                        Some(p) => {
                            proof {
                                assert(pre.skip(2) =~= pre.drop_first().drop_first());
                                assert(p@ == pre[1]);
                            }
                            output = Some(p);
                        },
                    }
                } else {
                    proof {
                        assert(parse_redirections(pre, opt_str_view(input), opt_str_view(output))
                            == Err::<(Option<Seq<char>>, Option<Seq<char>>), CompileError>(
                            CompileError::MalformedRedirection,
                        ));
                    }
                    return Err(CompileError::MalformedRedirection);
                }
            },
        }
    }
    Ok(Segment { argv, input, output })
}

/// Compile a pipeline: split on the first `|`, compile the sink from the
/// remainder first (a reader must exist before the source writes), then
/// the source from the re-rendered left-hand text.
pub fn compile_pipeline(tok: &mut Tokenizer) -> (r: Result<(Segment, Segment), CompileError>)
    requires
        old(tok).piped,
    ensures
        match r {
            Ok(p) => pipeline_model(old(tok).tokens(), old(tok).redirected) == Ok::<
                _,
                CompileError,
            >((p.0.model(), p.1.model())),
            Err(e) => pipeline_model(old(tok).tokens(), old(tok).redirected) == Err::<
                (SegmentModel, SegmentModel),
                CompileError,
            >(e),
        },
{
    let mut left = tok.commands_before_pipe();
    let sink = match compile_segment(tok) {
        Ok(s) => s,
        Err(e) => {
            return Err(e);
        },
    };
    let source = match compile_segment(&mut left) {
        Ok(s) => s,
        Err(e) => {
            return Err(e);
        },
    };
    Ok((source, sink))
}

/// Compile a whole input line: split it on `&&` into independent groups
/// and compile each in turn.  Groups are executed unconditionally, in
/// order; a failing group never stops the ones after it, so each group's
/// outcome is reported on its own.
pub fn compile_line(line: &str) -> (steps: Vec<Result<Step, CompileError>>)
    ensures
        steps@.len() == groups_of(tokens_of(line@), "&&"@).len(),
        forall|k: int|
            0 <= k < steps@.len() ==> step_matches(
                #[trigger] steps@[k],
                step_model_of_group(groups_of(tokens_of(line@), "&&"@)[k]),
            ),
{
    let mut tok = Tokenizer::new(line);
    let mut groups = tok.get_multiple_tokens("&&");
    let ghost all = groups@;
    let ghost models = groups_of(tokens_of(line@), "&&"@);
    let mut steps: Vec<Result<Step, CompileError>> = Vec::new();
    proof {
        assert(all.skip(0) =~= all);
    }
    while groups.len() > 0
        invariant
            all.len() == models.len(),
            steps@.len() + groups@.len() == models.len(),
            steps@.len() <= all.len(),
            groups@ == all.skip(steps@.len() as int),
            forall|k: int|
                0 <= k < all.len() ==> (#[trigger] all[k]).tokens() == models[k]
                    && all[k].current is Some && all[k].remaining() == quote_join(all[k].tokens())
                    && all[k].piped == contains_seq(quote_join(all[k].tokens()), " | "@)
                    && all[k].redirected == (contains_seq(quote_join(all[k].tokens()), " >"@)
                    || contains_seq(quote_join(all[k].tokens()), " < "@)),
            forall|k: int|
                0 <= k < steps@.len() ==> step_matches(
                    #[trigger] steps@[k],
                    step_model_of_group(models[k]),
                ),
        decreases groups@.len(),
    {
        let ghost i = steps@.len() as int;
        let mut g = groups.remove(0);
        proof {
            assert(g == all[i]);
            assert(groups@ =~= all.skip(i + 1));
        }
        let name = g.peek();
        let step: Result<Step, CompileError> = if is_builtin(name.as_str()) {
            proof {
                reveal_strlit("cd");
                reveal_strlit("source");
                reveal_strlit("touch");
                reveal_strlit("history");
                assert(g.tokens().len() > 0);
            }
            Ok(Step::Builtin(g))
        } else if g.is_pipe() {
            proof {
                if g.tokens().len() > 0 {
                    assert(name@ == g.tokens()[0]);
                }
            }
            match compile_pipeline(&mut g) {
                Ok(p) => Ok(Step::Piped(p.0, p.1)),
                Err(e) => Err(e),
            }
        } else {
            proof {
                if g.tokens().len() > 0 {
                    assert(name@ == g.tokens()[0]);
                }
            }
            match compile_segment(&mut g) {
                Ok(s) => Ok(Step::Single(s)),
                Err(e) => Err(e),
            }
        };
        steps.push(step);
    }
    proof {
        assert(steps@.len() == models.len());
    }
    steps
}

} // verus!
