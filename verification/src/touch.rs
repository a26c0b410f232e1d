use vstd::prelude::*;

use crate::tokenizer::{has_char, Tokenizer};

verus! {

/// A touch-builtin error: the `r` flag without a usable slot for its
/// reference path or for the target that follows it.
#[derive(Debug, PartialEq, Eq)]
pub enum TouchError {
    InvalidArgument,
}

/// Which timestamp field one pass of the touch builtin sets.
#[derive(Debug, PartialEq, Eq, Clone, Copy)]
pub enum TimeField {
    Access,
    Modification,
}

/// One pass over the target files: the field it sets and whether a missing
/// target is created first.  The time written is the reference file's
/// modification time when the plan names a reference that exists, else the
/// current time.
#[derive(Debug, PartialEq, Eq, Clone, Copy)]
pub struct TouchPass {
    pub field: TimeField,
    pub create_missing: bool,
}

/// The decisions of one touch invocation, ready to be applied to the file
/// system: the target files, the optional reference path whose modification
/// time replaces "now", the passes to run in order, and the flag characters
/// that were not recognized (reported, then ignored).
pub struct TouchPlan {
    pub files: Vec<String>,
    pub reference: Option<String>,
    pub passes: Vec<TouchPass>,
    pub invalid: Vec<char>,
}

/// The mathematical content of a `TouchPlan`.
pub struct TouchPlanModel {
    pub files: Seq<Seq<char>>,
    pub reference: Option<Seq<char>>,
    pub passes: Seq<TouchPass>,
    pub invalid: Seq<char>,
}

impl TouchPlan {
    /// The mathematical content of this plan.
    pub open spec fn model(self) -> TouchPlanModel {
        TouchPlanModel {
            files: self.files.deep_view(),
            reference: match self.reference {
                Some(s) => Some(s@),
                None => None,
            },
            passes: self.passes@,
            invalid: self.invalid@,
        }
    }
}

/// A token that introduces flags.
pub open spec fn is_flag_token(t: Seq<char>) -> bool {
    t.len() > 0 && t[0] == '-'
}

/// A character the touch builtin rejects as the first character of an
/// operand (shell operators and expansion symbols).
pub open spec fn is_symbol_char(c: char) -> bool {
    c == '~' || c == '#' || c == '@' || c == '<' || c == '>' || c == '&' || c == '|' || c == '%'
        || c == '*' || c == '(' || c == ')' || c == '!'
}

/// The operand tokens of a command: those that do not begin with a shell
/// symbol character.
pub open spec fn filter_operands(ts: Seq<Seq<char>>) -> Seq<Seq<char>>
    decreases ts.len(),
{
    if ts.len() == 0 {
        Seq::empty()
    } else if ts[0].len() > 0 && is_symbol_char(ts[0][0]) {
        filter_operands(ts.drop_first())
    } else {
        seq![ts[0]] + filter_operands(ts.drop_first())
    }
}

/// A token sequence with its first token (the command name) dropped.
pub open spec fn rest_tokens(ts: Seq<Seq<char>>) -> Seq<Seq<char>> {
    if ts.len() == 0 {
        ts
    } else {
        ts.drop_first()
    }
}

/// The indices the flag scan settles on: the position of the last flag
/// token, and the positions of the reference path and of the first target
/// file, both relative to the whole operand list.
pub struct FlagIndices {
    pub options: Option<int>,
    pub reference: int,
    pub first_file: int,
}

/// Scan the operands left to right for flag tokens.  A flag token makes the
/// following operand the first target; when it carries `r`, the following
/// operand is the reference path instead and the target slot moves one
/// further (or, when the list ends there, one before the flag token).  An
/// `r` with no operand after the flag token at all is an error, as is the
/// form where the slot before the very first operand would be named.
pub open spec fn scan_flags(cmd: Seq<Seq<char>>, i: int, st: FlagIndices) -> Result<
    FlagIndices,
    TouchError,
>
    decreases cmd.len() - i,
{
    if i < 0 || i >= cmd.len() {
        Ok(st)
    } else if is_flag_token(cmd[i]) {
        if cmd[i].contains('r') {
            if cmd.len() <= i + 1 {
                Err(TouchError::InvalidArgument)
            } else if cmd.len() > i + 2 {
                scan_flags(
                    cmd,
                    i + 1,
                    FlagIndices { options: Some(i), reference: i + 1, first_file: i + 2 },
                )
            } else if i == 0 {
                Err(TouchError::InvalidArgument)
            } else {
                scan_flags(
                    cmd,
                    i + 1,
                    FlagIndices { options: Some(i), reference: i + 1, first_file: i - 1 },
                )
            }
        } else {
            scan_flags(
                cmd,
                i + 1,
                FlagIndices { options: Some(i), reference: st.reference, first_file: i + 1 },
            )
        }
    } else {
        scan_flags(cmd, i + 1, st)
    }
}

/// The passes that the flag characters prescribe, processed once each,
/// left to right: `c` turns creation off for the passes after it, `a` adds
/// an access-time pass, `m` and `r` add a modification-time pass, `-` and
/// unrecognized characters add none.
pub open spec fn flag_passes(ops: Seq<char>, create: bool) -> Seq<TouchPass>
    decreases ops.len(),
{
    if ops.len() == 0 {
        Seq::empty()
    } else if ops[0] == 'c' {
        flag_passes(ops.drop_first(), false)
    } else if ops[0] == 'a' {
        seq![TouchPass { field: TimeField::Access, create_missing: create }] + flag_passes(
            ops.drop_first(),
            create,
        )
    } else if ops[0] == 'm' || ops[0] == 'r' {
        seq![TouchPass { field: TimeField::Modification, create_missing: create }] + flag_passes(
            ops.drop_first(),
            create,
        )
    } else {
        flag_passes(ops.drop_first(), create)
    }
}

/// The flag characters that name no operation.
pub open spec fn invalid_flags(ops: Seq<char>) -> Seq<char>
    decreases ops.len(),
{
    if ops.len() == 0 {
        Seq::empty()
    } else if ops[0] == '-' || ops[0] == 'c' || ops[0] == 'a' || ops[0] == 'm' || ops[0] == 'r' {
        invalid_flags(ops.drop_first())
    } else {
        seq![ops[0]] + invalid_flags(ops.drop_first())
    }
}

/// The plan of one touch invocation over its operand list.  Without a flag
/// token, every operand is a target, each missing target is created, and
/// both timestamp fields are set to the current time.
pub open spec fn touch_plan_model(cmd: Seq<Seq<char>>) -> Result<TouchPlanModel, TouchError> {
    match scan_flags(cmd, 0, FlagIndices { options: None, reference: 0, first_file: 0 }) {
        Err(e) => Err(e),
        Ok(st) => {
            let reference = if st.reference > 0 {
                Some(cmd[st.reference])
            } else {
                None
            };
            match st.options {
                Some(oi) => Ok(
                    TouchPlanModel {
                        files: cmd.skip(st.first_file),
                        reference,
                        passes: flag_passes(cmd[oi], true),
                        invalid: invalid_flags(cmd[oi]),
                    },
                ),
                None => Ok(
                    TouchPlanModel {
                        files: cmd,
                        reference,
                        passes: seq![
                            TouchPass { field: TimeField::Access, create_missing: true },
                            TouchPass { field: TimeField::Modification, create_missing: true },
                        ],
                        invalid: Seq::empty(),
                    },
                ),
            }
        },
    }
}

/// Read the operands of a command: the name token is dropped, and every
/// token that begins with a shell symbol character is filtered out.  The
/// whole stream is consumed.  This parse itself never fails.
pub fn parse_command(tokenizer: &mut Tokenizer) -> (r: Result<Vec<String>, TouchError>)
    ensures
        r matches Ok(cmd) && cmd.deep_view() == filter_operands(
            rest_tokens(old(tokenizer).tokens()),
        ),
        final(tokenizer).tokens().len() == 0,
        final(tokenizer).current is None,
{
    let _name = tokenizer.next();
    let ghost toks0 = tokenizer.tokens();
    let mut res: Vec<String> = Vec::new();
    proof {
        assert(res.deep_view() + filter_operands(tokenizer.tokens()) =~= filter_operands(toks0));
    }
    loop
        invariant
            filter_operands(toks0) == res.deep_view() + filter_operands(tokenizer.tokens()),
        ensures
            res.deep_view() == filter_operands(toks0),
            tokenizer.tokens().len() == 0,
            tokenizer.current is None,
        decreases tokenizer.measure(),
    {
        let ghost pre = tokenizer.tokens();
        match tokenizer.next() {
            None => {
                proof {
                    assert(filter_operands(pre) =~= Seq::<Seq<char>>::empty());
                    assert(res.deep_view() + Seq::<Seq<char>>::empty() =~= res.deep_view());
                    assert(tokenizer.tokens() =~= Seq::<Seq<char>>::empty());
                }
                break;
            },
            Some(v) => {
                let keep = if v.as_str().unicode_len() > 0 {
                    !is_symbol(v.as_str().get_char(0))
                } else {
                    true
                };
                if keep {
                    let ghost res0 = res.deep_view();
                    res.push(v);
                    proof {
                        assert(res.deep_view() =~= res0.push(pre[0]));
                        assert(res0.push(pre[0]) + filter_operands(pre.drop_first()) =~= res0 + (
                        seq![pre[0]] + filter_operands(pre.drop_first())));
                    }
                }
            },
        }
    }
    Ok(res)
}

/// Is `c` a character the touch builtin rejects as the start of an operand?
fn is_symbol(c: char) -> (r: bool)
    ensures
        r == is_symbol_char(c),
{
    c == '~' || c == '#' || c == '@' || c == '<' || c == '>' || c == '&' || c == '|' || c == '%'
        || c == '*' || c == '(' || c == ')' || c == '!'
}

/// Decide what one touch invocation does, from its operand list alone:
/// which files are targets, which reference path (if any) supplies the
/// timestamp, which passes run and in what order.  An `r` flag with no
/// operand left for its reference path or its target is rejected and
/// nothing is planned.
pub fn touch_plan(cmd: &Vec<String>) -> (r: Result<TouchPlan, TouchError>)
    ensures
        match r {
            Ok(plan) => touch_plan_model(cmd.deep_view()) == Ok::<TouchPlanModel, TouchError>(
                plan.model(),
            ),
            Err(e) => touch_plan_model(cmd.deep_view()) == Err::<TouchPlanModel, TouchError>(e),
        },
{
    let ghost cmdv = cmd.deep_view();
    let n = cmd.len();
    let mut options: Option<usize> = None;
    let mut reference_index: usize = 0;
    let mut file_index: usize = 0;
    let ghost st0 = FlagIndices { options: None, reference: 0, first_file: 0 };
    let mut i: usize = 0;
    while i < n
        invariant
            n == cmdv.len(),
            cmdv == cmd.deep_view(),
            i <= n,
            st0 == (FlagIndices { options: None, reference: 0, first_file: 0 }),
            reference_index < n || reference_index == 0,
            file_index <= n,
            match options {
                Some(oi) => oi < n,
                None => true,
            },
            scan_flags(cmdv, 0, st0) == scan_flags(
                cmdv,
                i as int,
                FlagIndices {
                    options: match options {
                        Some(oi) => Some(oi as int),
                        None => None,
                    },
                    reference: reference_index as int,
                    first_file: file_index as int,
                },
            ),
        decreases n - i,
    {
        let ghost st_top = FlagIndices {
            options: match options {
                Some(oi) => Some(oi as int),
                None => None,
            },
            reference: reference_index as int,
            first_file: file_index as int,
        };
        proof {
            assert(cmd@[i as int]@ == cmdv[i as int]);
        }
        let v = &cmd[i];
        let flagged = if v.as_str().unicode_len() > 0 {
            v.as_str().get_char(0) == '-'
        } else {
            false
        };
        if flagged {
            if has_char(v.as_str(), 'r') {
                if n - i <= 1 {
                    proof {
                        assert(scan_flags(cmdv, i as int, st_top) == Err::<
                            FlagIndices,
                            TouchError,
                        >(TouchError::InvalidArgument));
                    }
                    return Err(TouchError::InvalidArgument);
                }
                reference_index = i + 1;
                if n - i > 2 {
                    file_index = i + 2;
                } else if i == 0 {
                    proof {
                        assert(scan_flags(cmdv, i as int, st_top) == Err::<
                            FlagIndices,
                            TouchError,
                        >(TouchError::InvalidArgument));
                    }
                    return Err(TouchError::InvalidArgument);
                } else {
                    file_index = i - 1;
                }
                options = Some(i);
            } else {
                file_index = i + 1;
                options = Some(i);
            }
        }
        i += 1;
    }
    let ghost stf = FlagIndices {
        options: match options {
            Some(oi) => Some(oi as int),
            None => None,
        },
        reference: reference_index as int,
        first_file: file_index as int,
    };
    proof {
        assert(scan_flags(cmdv, n as int, stf) == Ok::<FlagIndices, TouchError>(stf));
    }
    let reference: Option<String> = if reference_index > 0 {
        Some(cmd[reference_index].clone())
    } else {
        None
    };
    proof {
        if reference_index > 0 {
            assert(cmd@[reference_index as int]@ == cmdv[reference_index as int]);
        }
    }
    let mut passes: Vec<TouchPass> = Vec::new();
    let mut invalid: Vec<char> = Vec::new();
    match options {
        None => {
            passes.push(TouchPass { field: TimeField::Access, create_missing: true });
            passes.push(TouchPass { field: TimeField::Modification, create_missing: true });
            proof {
                assert(passes@ =~= seq![
                    TouchPass { field: TimeField::Access, create_missing: true },
                    TouchPass { field: TimeField::Modification, create_missing: true },
                ]);
            }
        },
        Some(oi) => {
            let ops = &cmd[oi];
            let ghost opsv = cmdv[oi as int];
            proof {
                assert(ops@ == opsv);
            }
            let m = ops.as_str().unicode_len();
            let mut create = true;
            let mut j: usize = 0;
            proof {
                assert(opsv.skip(0) =~= opsv);
                assert(passes@ + flag_passes(opsv, true) =~= flag_passes(opsv, true));
                assert(invalid@ + invalid_flags(opsv) =~= invalid_flags(opsv));
            }
            while j < m
                invariant
                    m == opsv.len(),
                    opsv == ops@,
                    j <= m,
                    flag_passes(opsv, true) == passes@ + flag_passes(
                        opsv.skip(j as int),
                        create,
                    ),
                    invalid_flags(opsv) == invalid@ + invalid_flags(opsv.skip(j as int)),
                decreases m - j,
            {
                let ghost suf = opsv.skip(j as int);
                proof {
                    assert(suf[0] == opsv[j as int]);
                    assert(suf.drop_first() =~= opsv.skip(j as int + 1));
                }
                let c = ops.as_str().get_char(j);
                if c == 'c' {
                    create = false;
                } else if c == 'a' {
                    let ghost p0 = passes@;
                    passes.push(TouchPass { field: TimeField::Access, create_missing: create });
                    proof {
                        assert(passes@ =~= p0.push(
                            TouchPass { field: TimeField::Access, create_missing: create },
                        ));
                        assert(p0.push(
                            TouchPass { field: TimeField::Access, create_missing: create },
                        ) + flag_passes(suf.drop_first(), create) =~= p0 + (seq![
                            TouchPass { field: TimeField::Access, create_missing: create },
                        ] + flag_passes(suf.drop_first(), create)));
                    }
                } else if c == 'm' || c == 'r' {
                    let ghost p0 = passes@;
                    passes.push(
                        TouchPass { field: TimeField::Modification, create_missing: create },
                    );
                    proof {
                        assert(passes@ =~= p0.push(
                            TouchPass { field: TimeField::Modification, create_missing: create },
                        ));
                        assert(p0.push(
                            TouchPass { field: TimeField::Modification, create_missing: create },
                        ) + flag_passes(suf.drop_first(), create) =~= p0 + (seq![
                            TouchPass { field: TimeField::Modification, create_missing: create },
                        ] + flag_passes(suf.drop_first(), create)));
                    }
                } else if c != '-' {
                    let ghost v0 = invalid@;
                    invalid.push(c);
                    proof {
                        assert(invalid@ =~= v0.push(suf[0]));
                        assert(v0.push(suf[0]) + invalid_flags(suf.drop_first()) =~= v0 + (
                        seq![suf[0]] + invalid_flags(suf.drop_first())));
                    }
                }
                j += 1;
            }
            proof {
                assert(opsv.skip(m as int) =~= Seq::<char>::empty());
                assert(passes@ + Seq::<TouchPass>::empty() =~= passes@);
                assert(invalid@ + Seq::<char>::empty() =~= invalid@);
            }
        },
    }
    let mut files: Vec<String> = Vec::new();
    let start = match options {
        Some(_) => file_index,
        None => 0,
    };
    let mut k: usize = start;
    while k < n
        invariant
            n == cmdv.len(),
            cmdv == cmd.deep_view(),
            start <= k,
            k <= n,
            files.deep_view() =~= cmdv.subrange(start as int, k as int),
        decreases n - k,
    {
        proof {
            assert(cmd@[k as int]@ == cmdv[k as int]);
        }
        let ghost f0 = files.deep_view();
        files.push(cmd[k].clone());
        proof {
            assert(files.deep_view() =~= f0.push(cmdv[k as int]));
            assert(f0.push(cmdv[k as int]) =~= cmdv.subrange(start as int, k as int + 1));
        }
        k += 1;
    }
    proof {
        assert(cmdv.subrange(start as int, n as int) =~= cmdv.skip(start as int));
        assert(cmdv.skip(0) =~= cmdv);
    }
    Ok(TouchPlan { files, reference, passes, invalid })
}

/// Without flag tokens among its operands, a touch invocation targets every
/// operand, creates each missing target, and sets both the access and the
/// modification time, in that order, to the current time (no reference path
/// is consulted).
pub proof fn lemma_touch_no_flags(cmd: Seq<Seq<char>>)
    requires
        forall|k: int| 0 <= k < cmd.len() ==> !is_flag_token(#[trigger] cmd[k]),
    ensures
        touch_plan_model(cmd) == Ok::<TouchPlanModel, TouchError>(
            TouchPlanModel {
                files: cmd,
                reference: None,
                passes: seq![
                    TouchPass { field: TimeField::Access, create_missing: true },
                    TouchPass { field: TimeField::Modification, create_missing: true },
                ],
                invalid: Seq::empty(),
            },
        ),
{
    lemma_scan_flags_skips(cmd, 0, FlagIndices { options: None, reference: 0, first_file: 0 });
}

/// The flag scan passes over operands that are no flag tokens unchanged.
proof fn lemma_scan_flags_skips(cmd: Seq<Seq<char>>, i: int, st: FlagIndices)
    requires
        0 <= i,
        forall|k: int| i <= k < cmd.len() ==> !is_flag_token(#[trigger] cmd[k]),
    ensures
        scan_flags(cmd, i, st) == Ok::<FlagIndices, TouchError>(st),
    decreases cmd.len() - i,
{
    if i < cmd.len() {
        lemma_scan_flags_skips(cmd, i + 1, st);
    }
}

/// With exactly the flag token `-r`, a reference path and one target, the
/// plan runs a single modification-time pass (creating the target when it
/// is missing) whose time comes from the reference path — equal to the
/// reference file's own modification time, not merely close to it.
pub proof fn lemma_touch_reference(cmd: Seq<Seq<char>>)
    requires
        cmd.len() == 3,
        cmd[0] == "-r"@,
        !is_flag_token(cmd[1]),
        !is_flag_token(cmd[2]),
    ensures
        touch_plan_model(cmd) == Ok::<TouchPlanModel, TouchError>(
            TouchPlanModel {
                files: seq![cmd[2]],
                reference: Some(cmd[1]),
                passes: seq![TouchPass { field: TimeField::Modification, create_missing: true }],
                invalid: Seq::empty(),
            },
        ),
{
    reveal_strlit("-r");
    assert(cmd[0].len() == 2 && cmd[0][0] == '-' && cmd[0][1] == 'r');
    assert(is_flag_token(cmd[0]));
    assert(cmd[0].contains('r'));
    let st1 = FlagIndices { options: Some(0int), reference: 1, first_file: 2 };
    lemma_scan_flags_skips(cmd, 1, st1);
    assert(scan_flags(cmd, 0, FlagIndices { options: None, reference: 0, first_file: 0 })
        == Ok::<FlagIndices, TouchError>(st1));
    let ops = cmd[0];
    let mpass = TouchPass { field: TimeField::Modification, create_missing: true };
    assert(ops.drop_first() =~= seq!['r']);
    assert(seq!['r'][0] == 'r');
    assert(seq!['r'].drop_first() =~= Seq::<char>::empty());
    assert(flag_passes(Seq::<char>::empty(), true) =~= Seq::<TouchPass>::empty());
    assert(flag_passes(ops, true) == flag_passes(seq!['r'], true));
    assert(flag_passes(seq!['r'], true) == seq![mpass] + flag_passes(Seq::<char>::empty(), true));
    assert(seq![mpass] + Seq::<TouchPass>::empty() =~= seq![mpass]);
    assert(flag_passes(ops, true) == seq![mpass]);
    assert(invalid_flags(Seq::<char>::empty()) =~= Seq::<char>::empty());
    assert(invalid_flags(ops) == invalid_flags(seq!['r']));
    assert(invalid_flags(seq!['r']) == invalid_flags(Seq::<char>::empty()));
    assert(invalid_flags(ops) =~= Seq::<char>::empty());
    assert(cmd.skip(2) =~= seq![cmd[2]]);
}

/// A whole touch command with one target operand and no flags — the name
/// token, then the target path — plans exactly: create the target when it
/// is missing, then set its access time and its modification time, in that
/// order, to the current time; no reference path is consulted.  The
/// creation itself and the clock are the dispatcher's to apply.
pub proof fn lemma_touch_single_target(name: Seq<char>, p: Seq<char>)
    requires
        p.len() > 0,
        p[0] != '-',
        !is_symbol_char(p[0]),
    ensures
        touch_plan_model(filter_operands(rest_tokens(seq![name, p]))) == Ok::<
            TouchPlanModel,
            TouchError,
        >(
            TouchPlanModel {
                files: seq![p],
                reference: None,
                passes: seq![
                    TouchPass { field: TimeField::Access, create_missing: true },
                    TouchPass { field: TimeField::Modification, create_missing: true },
                ],
                invalid: Seq::empty(),
            },
        ),
{
    let e = Seq::<Seq<char>>::empty();
    assert(rest_tokens(seq![name, p]) =~= seq![p]);
    assert(seq![p].drop_first() =~= e);
    assert(filter_operands(e) =~= e);
    assert(filter_operands(seq![p]) == seq![p] + filter_operands(e));
    assert(seq![p] + e =~= seq![p]);
    assert forall|k: int| 0 <= k < seq![p].len() implies !is_flag_token(#[trigger] seq![p][k]) by {
        assert(seq![p][k] == p);
    }
    lemma_touch_no_flags(seq![p]);
}

/// A whole touch command with creation suppressed — the name token, the
/// flag token `-c`, then the target path — plans no pass at all: applying
/// the plan mutates nothing on the file system and creates nothing.
pub proof fn lemma_touch_suppressed_creation(name: Seq<char>, p: Seq<char>)
    requires
        p.len() > 0,
        p[0] != '-',
        !is_symbol_char(p[0]),
    ensures
        touch_plan_model(filter_operands(rest_tokens(seq![name, "-c"@, p]))) == Ok::<
            TouchPlanModel,
            TouchError,
        >(
            TouchPlanModel {
                files: seq![p],
                reference: None,
                passes: Seq::empty(),
                invalid: Seq::empty(),
            },
        ),
{
    reveal_strlit("-c");
    let e = Seq::<Seq<char>>::empty();
    let cmd = seq!["-c"@, p];
    assert(rest_tokens(seq![name, "-c"@, p]) =~= cmd);
    assert(cmd.drop_first() =~= seq![p]);
    assert(seq![p].drop_first() =~= e);
    assert(filter_operands(e) =~= e);
    assert(filter_operands(seq![p]) == seq![p] + filter_operands(e));
    assert(!is_symbol_char("-c"@[0]));
    assert(filter_operands(cmd) == seq!["-c"@] + filter_operands(seq![p]));
    assert(seq!["-c"@] + (seq![p] + e) =~= cmd);
    assert(filter_operands(cmd) == cmd);
    // the flag scan settles on the flag token and the target after it
    assert(is_flag_token(cmd[0]));
    assert(!cmd[0].contains('r'));
    let st0 = FlagIndices { options: None, reference: 0, first_file: 0 };
    let st1 = FlagIndices { options: Some(0int), reference: 0, first_file: 1 };
    assert(!is_flag_token(cmd[1]));
    assert(scan_flags(cmd, 2, st1) == Ok::<FlagIndices, TouchError>(st1));
    assert(scan_flags(cmd, 1, st1) == Ok::<FlagIndices, TouchError>(st1));
    assert(scan_flags(cmd, 0, st0) == Ok::<FlagIndices, TouchError>(st1));
    // the flag characters: creation off, no pass named
    let ec = Seq::<char>::empty();
    assert("-c"@.drop_first() =~= seq!['c']);
    assert(seq!['c'].drop_first() =~= ec);
    assert(flag_passes(ec, false) =~= Seq::<TouchPass>::empty());
    assert(flag_passes(seq!['c'], true) == flag_passes(ec, false));
    assert(flag_passes("-c"@, true) == flag_passes(seq!['c'], true));
    assert(invalid_flags(ec) =~= ec);
    assert(invalid_flags(seq!['c']) == invalid_flags(ec));
    assert(invalid_flags("-c"@) == invalid_flags(seq!['c']));
    assert(cmd.skip(1) =~= seq![p]);
}

/// A whole touch command with a reference — the name token, the flag token
/// `-r`, the reference path, then the target — plans a single
/// modification-time pass over the target (created when missing) whose
/// time is the reference file's own modification time, taken as it is.
pub proof fn lemma_touch_reference_command(name: Seq<char>, refp: Seq<char>, target: Seq<char>)
    requires
        refp.len() > 0,
        refp[0] != '-',
        !is_symbol_char(refp[0]),
        target.len() > 0,
        target[0] != '-',
        !is_symbol_char(target[0]),
    ensures
        touch_plan_model(filter_operands(rest_tokens(seq![name, "-r"@, refp, target]))) == Ok::<
            TouchPlanModel,
            TouchError,
        >(
            TouchPlanModel {
                files: seq![target],
                reference: Some(refp),
                passes: seq![TouchPass { field: TimeField::Modification, create_missing: true }],
                invalid: Seq::empty(),
            },
        ),
{
    reveal_strlit("-r");
    let e = Seq::<Seq<char>>::empty();
    let cmd = seq!["-r"@, refp, target];
    assert(rest_tokens(seq![name, "-r"@, refp, target]) =~= cmd);
    assert(cmd.drop_first() =~= seq![refp, target]);
    assert(seq![refp, target].drop_first() =~= seq![target]);
    assert(seq![target].drop_first() =~= e);
    assert(filter_operands(e) =~= e);
    assert(filter_operands(seq![target]) == seq![target] + filter_operands(e));
    assert(filter_operands(seq![refp, target]) == seq![refp] + filter_operands(seq![target]));
    assert(!is_symbol_char("-r"@[0]));
    assert(filter_operands(cmd) == seq!["-r"@] + filter_operands(seq![refp, target]));
    assert(seq!["-r"@] + (seq![refp] + (seq![target] + e)) =~= cmd);
    assert(filter_operands(cmd) == cmd);
    assert(!is_flag_token(cmd[1]));
    assert(!is_flag_token(cmd[2]));
    lemma_touch_reference(cmd);
}

} // verus!
