use crate::buffer::starts_with;
use crate::model::ModeSpec;
use crate::model::backtick_triple;
use crate::model::bad_close_at;
use crate::model::find_open_from;
use crate::model::has_bad_close;
use crate::model::lemma_find_open_from;
use crate::model::scan;
use crate::rules::RuleSpec;
use crate::rules::valid_config;
use vstd::prelude::*;

verus! {

/// `pat` occurs somewhere in `text` as a contiguous substring.
pub open spec fn occurs(text: Seq<char>, pat: Seq<char>) -> bool {
    exists|i: int| 0 <= i <= text.len() && starts_with(#[trigger] text.skip(i), pat)
}

/// A pattern that occurs nowhere in a text occurs nowhere in any suffix of it.
proof fn lemma_occurs_suffix(s: Seq<char>, pat: Seq<char>, i: int)
    requires
        !occurs(s, pat),
        0 <= i <= s.len(),
    ensures
        !occurs(s.skip(i), pat),
{
    assert forall|j: int| 0 <= j <= s.skip(i).len() implies !starts_with(
        #[trigger] s.skip(i).skip(j),
        pat,
    ) by {
        assert(s.skip(i).skip(j) =~= s.skip(i + j));
        assert(!starts_with(s.skip(i + j), pat));
    }
}

/// A pattern that begins a text occurs in it.
proof fn lemma_starts_with_occurs(s: Seq<char>, pat: Seq<char>)
    requires
        starts_with(s, pat),
    ensures
        occurs(s, pat),
{
    assert(s.skip(0) =~= s);
}

/// In code mode or inside a string, on remaining input that holds no
/// occurrence of any open pattern, none of any forbidden close pattern, and
/// no backtick triple, the scan emits every remaining character unchanged.
proof fn lemma_scan_emits_all(cfg: Seq<RuleSpec>, mode: ModeSpec, rem: Seq<char>)
    requires
        valid_config(cfg),
        mode is Code || mode is InString,
        forall|k: int| 0 <= k < cfg.len() ==> !occurs(rem, (#[trigger] cfg[k]).open_pat),
        forall|k: int|
            0 <= k < cfg.len() ==> (!(#[trigger] cfg[k]).allow_close_pat ==> !occurs(
                rem,
                cfg[k].close_pat,
            )),
        !occurs(rem, backtick_triple()),
    ensures
        scan(cfg, mode, rem) == Some(rem),
    decreases rem.len(),
{
    if rem.len() == 0 {
        assert(rem =~= Seq::<char>::empty());
    } else {
        let rest = rem.drop_first();
        assert(rest =~= rem.skip(1));
        assert forall|k: int| 0 <= k < cfg.len() implies !occurs(
            rest,
            (#[trigger] cfg[k]).open_pat,
        ) by {
            lemma_occurs_suffix(rem, cfg[k].open_pat, 1);
        }
        assert forall|k: int|
            0 <= k < cfg.len() && !(#[trigger] cfg[k]).allow_close_pat implies !occurs(
            rest,
            cfg[k].close_pat,
        ) by {
            lemma_occurs_suffix(rem, cfg[k].close_pat, 1);
        }
        lemma_occurs_suffix(rem, backtick_triple(), 1);
        match mode {
            ModeSpec::InString { delim, escaping } => {
                let c = rem[0];
                if c == '\\' && !escaping {
                    lemma_scan_emits_all(
                        cfg,
                        ModeSpec::InString { delim, escaping: true },
                        rest,
                    );
                } else if c == delim && !escaping {
                    lemma_scan_emits_all(cfg, ModeSpec::Code, rest);
                } else {
                    lemma_scan_emits_all(
                        cfg,
                        ModeSpec::InString { delim, escaping: false },
                        rest,
                    );
                }
                assert(seq![c] + rest =~= rem);
            },
            ModeSpec::Code => {
                assert forall|k: int| 0 <= k < cfg.len() implies !starts_with(
                    rem,
                    (#[trigger] cfg[k]).open_pat,
                ) by {
                    if starts_with(rem, cfg[k].open_pat) {
                        lemma_starts_with_occurs(rem, cfg[k].open_pat);
                    }
                }
                lemma_find_open_from(cfg, rem, 0);
                if find_open_from(cfg, rem, 0) is Some {
                    let m: int = find_open_from(cfg, rem, 0)->Some_0;
                    assert(!starts_with(rem, cfg[m].open_pat));
                    assert(false);
                }
                assert forall|j: int| 0 <= j < cfg.len() implies !bad_close_at(
                    cfg,
                    rem,
                    j,
                ) by {
                    if starts_with(rem, cfg[j].close_pat) && !cfg[j].allow_close_pat {
                        lemma_starts_with_occurs(rem, cfg[j].close_pat);
                    }
                }
                assert(!has_bad_close(cfg, rem));
                if starts_with(rem, backtick_triple()) {
                    lemma_starts_with_occurs(rem, backtick_triple());
                    assert(false);
                }
                let c = rem[0];
                if c == '"' || c == '\'' {
                    lemma_scan_emits_all(
                        cfg,
                        ModeSpec::InString { delim: c, escaping: false },
                        rest,
                    );
                } else {
                    lemma_scan_emits_all(cfg, ModeSpec::Code, rest);
                }
                assert(seq![c] + rest =~= rem);
            },
            _ => {},
        }
    }
}

/// Idempotence on comment-free text: for any valid configuration, on input
/// that contains no occurrence of any rule's open pattern, no occurrence of
/// the close pattern of a rule that forbids an unmatched close, and no
/// backtick triple, the scan returns the input unchanged. Stripping such a
/// text is the identity, so stripping is idempotent on its own output for
/// such texts.
pub proof fn lemma_strip_identity(cfg: Seq<RuleSpec>, input: Seq<char>)
    requires
        valid_config(cfg),
        forall|k: int| 0 <= k < cfg.len() ==> !occurs(input, (#[trigger] cfg[k]).open_pat),
        forall|k: int|
            0 <= k < cfg.len() ==> (!(#[trigger] cfg[k]).allow_close_pat ==> !occurs(
                input,
                cfg[k].close_pat,
            )),
        !occurs(input, backtick_triple()),
    ensures
        scan(cfg, ModeSpec::Code, input) == Some(input),
{
    lemma_scan_emits_all(cfg, ModeSpec::Code, input);
}

} // verus!
