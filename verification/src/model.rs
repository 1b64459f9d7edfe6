use crate::buffer::starts_with;
use crate::rules::RuleSpec;
use crate::rules::max_pat_len;
use crate::rules::valid_config;
use crate::rules::valid_rule;
use vstd::prelude::*;

verus! {

/// The scanner's classification of the current input position, as the
/// mathematical model: exactly one of code, inside a comment (with the rule's
/// index and, for nesting rules, a depth counter), or inside a string literal
/// (with its delimiter and a one-character escape-pending flag).
pub enum ModeSpec {
    Code,
    InComment { idx: int, depth: Option<int> },
    InString { delim: char, escaping: bool },
}

/// Well-formedness of a mode with respect to a rule table: a comment mode
/// names a rule of the table, and a nesting depth is never negative.
pub open spec fn mode_wf(cfg: Seq<RuleSpec>, mode: ModeSpec) -> bool {
    match mode {
        ModeSpec::InComment { idx, depth } => {
            &&& 0 <= idx < cfg.len()
            &&& (depth matches Some(d) ==> d >= 0)
        },
        _ => true,
    }
}

/// The backtick triple that opens a backtick string.
pub open spec fn backtick_triple() -> Seq<char> {
    seq!['`', '`', '`']
}

/// Prepends one character to a pending scan result, keeping an error as is.
pub open spec fn cons_opt(c: char, r: Option<Seq<char>>) -> Option<Seq<char>> {
    match r {
        Some(s) => Some(seq![c] + s),
        None => None,
    }
}

/// Prepends already-produced output to a pending scan result, keeping an
/// error as is.
pub open spec fn prepend_opt(pre: Seq<char>, r: Option<Seq<char>>) -> Option<Seq<char>> {
    match r {
        Some(s) => Some(pre + s),
        None => None,
    }
}

/// The index of the first rule whose open pattern begins the remaining input,
/// searching from position `i` of the table on.
pub open spec fn find_open_from(cfg: Seq<RuleSpec>, rem: Seq<char>, i: int) -> Option<int>
    decreases cfg.len() - i,
        when 0 <= i <= cfg.len()
{
    if i >= cfg.len() {
        None
    } else if starts_with(rem, cfg[i].open_pat) {
        Some(i)
    } else {
        find_open_from(cfg, rem, i + 1)
    }
}

/// What `find_open_from` returns: the first matching rule index at or after
/// `i`, or nothing when no rule's open pattern begins the remaining input.
pub proof fn lemma_find_open_from(cfg: Seq<RuleSpec>, rem: Seq<char>, i: int)
    requires
        0 <= i <= cfg.len(),
    ensures
        match find_open_from(cfg, rem, i) {
            Some(k) => i <= k < cfg.len() && starts_with(rem, cfg[k].open_pat) && forall|j: int|
                i <= j < k ==> !starts_with(rem, (#[trigger] cfg[j]).open_pat),
            None => forall|j: int|
                i <= j < cfg.len() ==> !starts_with(rem, (#[trigger] cfg[j]).open_pat),
        },
    decreases cfg.len() - i,
{
    if i < cfg.len() && !starts_with(rem, cfg[i].open_pat) {
        lemma_find_open_from(cfg, rem, i + 1);
    }
}

/// Rule `j`'s close pattern begins the remaining input although the rule does
/// not tolerate a close without a matching open.
pub open spec fn bad_close_at(cfg: Seq<RuleSpec>, rem: Seq<char>, j: int) -> bool {
    starts_with(rem, cfg[j].close_pat) && !cfg[j].allow_close_pat
}

/// Some rule's forbidden close pattern begins the remaining input.
pub open spec fn has_bad_close(cfg: Seq<RuleSpec>, rem: Seq<char>) -> bool {
    exists|j: int| 0 <= j < cfg.len() && #[trigger] bad_close_at(cfg, rem, j)
}

/// A termination measure over modes: the only scanner steps that consume no
/// input either leave a comment or decrement its nesting depth, and both
/// shrink this rank.
pub open spec fn mode_rank(mode: ModeSpec) -> int {
    match mode {
        ModeSpec::Code => 0,
        ModeSpec::InString { .. } => 0,
        ModeSpec::InComment { depth: None, .. } => 1,
        ModeSpec::InComment { depth: Some(d), .. } => if d >= 0 {
            d + 2
        } else {
            2
        },
    }
}

/// The scanner, as one mathematical function: given a rule table, the current
/// mode and the remaining input, the characters that survive comment removal,
/// or nothing when a forbidden close pattern appears with no matching open.
///
/// At end of input the scan simply stops, whatever the mode: an unterminated
/// comment or string is not an error. In code mode the rules are tried in
/// table order, and comment-open detection takes priority over string-start
/// detection; a backtick triple opens a backtick string only when the
/// lookahead width admits a three-character pattern.
pub open spec fn scan(cfg: Seq<RuleSpec>, mode: ModeSpec, rem: Seq<char>) -> Option<Seq<char>>
    decreases rem.len(), mode_rank(mode),
        when valid_config(cfg) && mode_wf(cfg, mode)
        via scan_decreases
{
    if rem.len() == 0 {
        Some(Seq::empty())
    } else {
        match mode {
            ModeSpec::InString { delim, escaping } => {
                let c = rem[0];
                if c == '\\' && !escaping {
                    cons_opt(
                        c,
                        scan(cfg, ModeSpec::InString { delim, escaping: true }, rem.drop_first()),
                    )
                } else if c == delim && !escaping {
                    cons_opt(c, scan(cfg, ModeSpec::Code, rem.drop_first()))
                } else {
                    cons_opt(
                        c,
                        scan(cfg, ModeSpec::InString { delim, escaping: false }, rem.drop_first()),
                    )
                }
            },
            ModeSpec::InComment { idx, depth } => {
                let rule = cfg[idx];
                if starts_with(rem, rule.close_pat) {
                    let rem2 = if rule.keep_close_pat {
                        rem
                    } else {
                        rem.skip(rule.close_pat.len() as int)
                    };
                    match depth {
                        None => scan(cfg, ModeSpec::Code, rem2),
                        Some(d) => if d == 0 {
                            scan(cfg, ModeSpec::Code, rem2)
                        } else {
                            scan(cfg, ModeSpec::InComment { idx, depth: Some(d - 1) }, rem2)
                        },
                    }
                } else if depth is Some && starts_with(rem, rule.open_pat) {
                    scan(
                        cfg,
                        ModeSpec::InComment { idx, depth: Some(depth->Some_0 + 1) },
                        rem.skip(rule.open_pat.len() as int),
                    )
                } else {
                    scan(cfg, mode, rem.drop_first())
                }
            },
            ModeSpec::Code => {
                match find_open_from(cfg, rem, 0) {
                    Some(i) => {
                        let rule = cfg[i];
                        scan(
                            cfg,
                            ModeSpec::InComment {
                                idx: i,
                                depth: if rule.nests {
                                    Some(0)
                                } else {
                                    None
                                },
                            },
                            rem.skip(rule.open_pat.len() as int),
                        )
                    },
                    None => {
                        if has_bad_close(cfg, rem) {
                            None
                        } else if rem[0] == '"' || rem[0] == '\'' {
                            cons_opt(
                                rem[0],
                                scan(
                                    cfg,
                                    ModeSpec::InString { delim: rem[0], escaping: false },
                                    rem.drop_first(),
                                ),
                            )
                        } else if max_pat_len(cfg) >= 3 && starts_with(rem, backtick_triple()) {
                            cons_opt(
                                '`',
                                scan(
                                    cfg,
                                    ModeSpec::InString { delim: '`', escaping: false },
                                    rem.skip(3),
                                ),
                            )
                        } else {
                            cons_opt(rem[0], scan(cfg, ModeSpec::Code, rem.drop_first()))
                        }
                    },
                }
            },
        }
    }
}

#[via_fn]
proof fn scan_decreases(cfg: Seq<RuleSpec>, mode: ModeSpec, rem: Seq<char>) {
    if rem.len() > 0 {
        match mode {
            ModeSpec::InComment { idx, depth } => {
                assert(valid_rule(cfg[idx]));
            },
            ModeSpec::Code => {
                lemma_find_open_from(cfg, rem, 0);
                if find_open_from(cfg, rem, 0) is Some {
                    let i = find_open_from(cfg, rem, 0)->Some_0;
                    assert(valid_rule(cfg[i]));
                }
            },
            _ => {},
        }
    }
}

} // verus!
