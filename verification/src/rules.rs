use vstd::prelude::*;

verus! {

/// The language families with built-in rule tables.
#[derive(Clone, Copy)]
pub enum Type {
    RustC,
    Python,
    Haskell,
    Markup,
}

/// One recognizable comment form.
///
/// `open_pat` begins the comment and `close_pat` ends it. If `nests` is set,
/// an inner occurrence of `open_pat` increases the nesting depth and only the
/// matching close at depth zero ends the comment. If `keep_close_pat` is set,
/// the close pattern's characters are still emitted as output (useful when the
/// close pattern is a structural character such as a newline). If
/// `allow_close_pat` is not set, encountering the close pattern while not
/// inside this comment is a fatal input error.
#[derive(Clone, Debug)]
pub struct Comment {
    pub open_pat: Vec<char>,
    pub close_pat: Vec<char>,
    pub nests: bool,
    pub keep_close_pat: bool,
    pub allow_close_pat: bool,
}

/// The mathematical model of a comment rule: the two patterns as character
/// sequences, plus the three flags.
#[verifier::ext_equal]
pub struct RuleSpec {
    pub open_pat: Seq<char>,
    pub close_pat: Seq<char>,
    pub nests: bool,
    pub keep_close_pat: bool,
    pub allow_close_pat: bool,
}

impl View for Comment {
    type V = RuleSpec;

    open spec fn view(&self) -> RuleSpec {
        RuleSpec {
            open_pat: self.open_pat@,
            close_pat: self.close_pat@,
            nests: self.nests,
            keep_close_pat: self.keep_close_pat,
            allow_close_pat: self.allow_close_pat,
        }
    }
}

/// A rule is valid when both of its patterns are non-empty.
pub open spec fn valid_rule(r: RuleSpec) -> bool {
    r.open_pat.len() > 0 && r.close_pat.len() > 0
}

/// A configuration is valid when it holds at least one rule and every rule is
/// valid. An empty table is invalid: the lookahead width would be undefined.
pub open spec fn valid_config(cfg: Seq<RuleSpec>) -> bool {
    cfg.len() > 0 && forall|i: int| 0 <= i < cfg.len() ==> valid_rule(#[trigger] cfg[i])
}

/// The view of a whole rule table.
pub open spec fn rules_view(rs: Seq<Comment>) -> Seq<RuleSpec> {
    rs.map_values(|r: Comment| r@)
}

/// The length of the longest open or close pattern in the table: the
/// lookahead width the scanner needs.
pub open spec fn max_pat_len(cfg: Seq<RuleSpec>) -> nat
    decreases cfg.len(),
{
    if cfg.len() == 0 {
        0
    } else {
        let rest = max_pat_len(cfg.drop_last());
        let o = cfg.last().open_pat.len();
        let c = cfg.last().close_pat.len();
        if o >= c && o >= rest {
            o
        } else if c >= rest {
            c
        } else {
            rest
        }
    }
}

/// Every pattern of a table fits inside the table's lookahead width.
pub proof fn lemma_max_pat_len_bounds(cfg: Seq<RuleSpec>, i: int)
    requires
        0 <= i < cfg.len(),
    ensures
        cfg[i].open_pat.len() <= max_pat_len(cfg),
        cfg[i].close_pat.len() <= max_pat_len(cfg),
    decreases cfg.len(),
{
    if i == cfg.len() - 1 {
        assert(cfg.last() == cfg[i]);
    } else {
        lemma_max_pat_len_bounds(cfg.drop_last(), i);
        assert(cfg.drop_last()[i] == cfg[i]);
    }
}

/// A valid table has a positive lookahead width.
pub proof fn lemma_max_pat_len_pos(cfg: Seq<RuleSpec>)
    requires
        valid_config(cfg),
    ensures
        max_pat_len(cfg) >= 1,
{
    assert(valid_rule(cfg[cfg.len() - 1]));
}

/// The rule table of each built-in language family, as pure data.
pub open spec fn lang_config(lang: Type) -> Seq<RuleSpec> {
    match lang {
        Type::RustC => seq![
            RuleSpec {
                open_pat: seq!['/', '/'],
                close_pat: seq!['\n'],
                nests: false,
                keep_close_pat: true,
                allow_close_pat: true,
            },
            RuleSpec {
                open_pat: seq!['/', '*'],
                close_pat: seq!['*', '/'],
                nests: false,
                keep_close_pat: false,
                allow_close_pat: false,
            },
        ],
        Type::Python => seq![
            RuleSpec {
                open_pat: seq!['#'],
                close_pat: seq!['\n'],
                nests: false,
                keep_close_pat: true,
                allow_close_pat: true,
            },
            RuleSpec {
                open_pat: seq!['\'', '\'', '\''],
                close_pat: seq!['\'', '\'', '\''],
                nests: false,
                keep_close_pat: false,
                allow_close_pat: false,
            },
            RuleSpec {
                open_pat: seq!['"', '"', '"'],
                close_pat: seq!['"', '"', '"'],
                nests: false,
                keep_close_pat: false,
                allow_close_pat: false,
            },
        ],
        Type::Haskell => seq![
            RuleSpec {
                open_pat: seq!['-', '-'],
                close_pat: seq!['\n'],
                nests: false,
                keep_close_pat: true,
                allow_close_pat: true,
            },
            RuleSpec {
                open_pat: seq!['{', '-'],
                close_pat: seq!['-', '}'],
                nests: true,
                keep_close_pat: false,
                allow_close_pat: false,
            },
        ],
        Type::Markup => seq![
            RuleSpec {
                open_pat: seq!['<', '!', '-', '-'],
                close_pat: seq!['-', '-', '>'],
                nests: false,
                keep_close_pat: false,
                allow_close_pat: false,
            },
        ],
    }
}

/// Builds the executable rule table of a language family. The result is
/// exactly the table `lang_config` describes, and it is a valid configuration.
pub fn config_for(lang: Type) -> (r: Vec<Comment>)
    ensures
        rules_view(r@) == lang_config(lang),
        valid_config(rules_view(r@)),
{
    let mut v: Vec<Comment> = Vec::new();
    match lang {
        Type::RustC => {
            v.push(Comment {
                open_pat: vec!['/', '/'],
                close_pat: vec!['\n'],
                nests: false,
                keep_close_pat: true,
                allow_close_pat: true,
            });
            v.push(Comment {
                open_pat: vec!['/', '*'],
                close_pat: vec!['*', '/'],
                nests: false,
                keep_close_pat: false,
                allow_close_pat: false,
            });
        }
        Type::Python => {
            v.push(Comment {
                open_pat: vec!['#'],
                close_pat: vec!['\n'],
                nests: false,
                keep_close_pat: true,
                allow_close_pat: true,
            });
            v.push(Comment {
                open_pat: vec!['\'', '\'', '\''],
                close_pat: vec!['\'', '\'', '\''],
                nests: false,
                keep_close_pat: false,
                allow_close_pat: false,
            });
            v.push(Comment {
                open_pat: vec!['"', '"', '"'],
                close_pat: vec!['"', '"', '"'],
                nests: false,
                keep_close_pat: false,
                allow_close_pat: false,
            });
        }
        Type::Haskell => {
            v.push(Comment {
                open_pat: vec!['-', '-'],
                close_pat: vec!['\n'],
                nests: false,
                keep_close_pat: true,
                allow_close_pat: true,
            });
            v.push(Comment {
                open_pat: vec!['{', '-'],
                close_pat: vec!['-', '}'],
                nests: true,
                keep_close_pat: false,
                allow_close_pat: false,
            });
        }
        Type::Markup => {
            v.push(Comment {
                open_pat: vec!['<', '!', '-', '-'],
                close_pat: vec!['-', '-', '>'],
                nests: false,
                keep_close_pat: false,
                allow_close_pat: false,
            });
        }
    }
    proof {
        assert(rules_view(v@) =~~= lang_config(lang));
    }
    v
}

} // verus!
