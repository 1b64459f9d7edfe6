use crate::buffer::Buf;
use crate::buffer::starts_with;
use crate::model::ModeSpec;
use crate::model::backtick_triple;
use crate::model::bad_close_at;
use crate::model::cons_opt;
use crate::model::find_open_from;
use crate::model::has_bad_close;
use crate::model::lemma_find_open_from;
use crate::model::mode_rank;
use crate::model::mode_wf;
use crate::model::prepend_opt;
use crate::model::scan;
use crate::rules::Comment;
use crate::rules::RuleSpec;
use crate::rules::lemma_max_pat_len_bounds;
use crate::rules::lemma_max_pat_len_pos;
use crate::rules::max_pat_len;
use crate::rules::rules_view;
use crate::rules::valid_config;
use crate::rules::valid_rule;
use vstd::prelude::*;

verus! {

/// The scanner's current classification of the input position. Exactly one of
/// these holds at any time, and only in `Code` may a new comment or string
/// begin.
#[derive(Clone, Copy)]
pub enum Mode {
    Code,
    InComment { idx: usize, depth: Option<usize> },
    InString { delim: char, escaping: bool },
}

impl View for Mode {
    type V = ModeSpec;

    open spec fn view(&self) -> ModeSpec {
        match self {
            Mode::Code => ModeSpec::Code,
            Mode::InComment { idx, depth } => ModeSpec::InComment {
                idx: *idx as int,
                depth: match depth {
                    Some(d) => Some(*d as int),
                    None => None,
                },
            },
            Mode::InString { delim, escaping } => ModeSpec::InString {
                delim: *delim,
                escaping: *escaping,
            },
        }
    }
}

/// The three-way result of one scanner step: one output character was
/// produced, input was consumed with no output yet, or the input is finished.
pub enum TriOpt {
    Yield(char),
    Wait,
    Exhausted,
}

/// The one fatal mid-scan condition: a close pattern of a rule that does not
/// tolerate an unmatched close appeared while not inside that rule's comment.
#[derive(Clone, Copy, Debug, PartialEq, Eq)]
pub enum StripError {
    UnmatchedClose,
}

/// The streaming scanner: consumes the characters of `iter` one at a time
/// through a bounded lookahead buffer and classifies each against the rule
/// table, emitting only the characters that survive comment removal.
pub struct WithoutComments {
    iter: Vec<char>,
    pos: usize,
    buf: Buf,
    comments: Vec<Comment>,
    state: Mode,
}

impl WithoutComments {
    /// The rule table, as its mathematical model.
    pub closed spec fn cfg(self) -> Seq<RuleSpec> {
        rules_view(self.comments@)
    }

    /// The not-yet-consumed input: the lookahead buffer followed by what the
    /// source still holds.
    pub closed spec fn rem(self) -> Seq<char> {
        self.buf@ + self.iter@.skip(self.pos as int)
    }

    /// The current mode.
    pub closed spec fn mode(self) -> ModeSpec {
        self.state@
    }

    /// The scanner's invariant: the rule table is valid, the buffer capacity
    /// is the table's longest pattern length, the buffer never holds more
    /// than was consumed from the source, and the mode names a rule of the
    /// table with a depth that cannot outgrow the machine.
    pub closed spec fn wf(self) -> bool {
        &&& valid_config(self.cfg())
        &&& self.buf.cap() == max_pat_len(self.cfg())
        &&& self.buf@.len() <= self.buf.cap()
        &&& self.buf@.len() <= self.pos
        &&& self.pos <= self.iter@.len()
        &&& mode_wf(self.cfg(), self.mode())
        &&& match self.state {
            Mode::InComment { depth: Some(d), .. } => d + self.rem().len() <= usize::MAX,
            _ => true,
        }
    }

    /// Builds a scanner over `iter` with the given rule table; `buf_len` must
    /// be the table's longest pattern length.
    pub fn new(iter: Vec<char>, comments: Vec<Comment>, buf_len: usize) -> (r: Self)
        requires
            valid_config(rules_view(comments@)),
            buf_len as nat == max_pat_len(rules_view(comments@)),
        ensures
            r.wf(),
            r.mode() == ModeSpec::Code,
            r.rem() == iter@,
            r.cfg() == rules_view(comments@),
    {
        let r = WithoutComments { iter, pos: 0, buf: Buf::new(buf_len), comments, state: Mode::Code };
        proof {
            assert(r.rem() =~= r.iter@);
        }
        r
    }

    /// One step of the state machine. Refills the lookahead buffer, then,
    /// depending on the mode, either emits one character, consumes input with
    /// no output yet, reports the end of the input, or reports the fatal
    /// unmatched-close error. The step is faithful to the mathematical
    /// scanner `scan`: an emitted character is the next character of the
    /// scan's result, a silent step leaves the scan's result unchanged while
    /// strictly shrinking the termination measure, and the error is reported
    /// exactly when the scan's result is an error.
    #[verifier::loop_isolation(false)]
    #[verifier::rlimit(60)]
    pub fn next_(&mut self) -> (r: Result<TriOpt, StripError>)
        requires
            old(self).wf(),
        ensures
            final(self).wf(),
            final(self).cfg() == old(self).cfg(),
            match r {
                Ok(TriOpt::Exhausted) => old(self).rem().len() == 0 && final(self).rem().len()
                    == 0,
                Ok(TriOpt::Yield(c)) => scan(old(self).cfg(), old(self).mode(), old(self).rem())
                    == cons_opt(c, scan(final(self).cfg(), final(self).mode(), final(self).rem()))
                    && final(self).rem().len() < old(self).rem().len(),
                Ok(TriOpt::Wait) => scan(old(self).cfg(), old(self).mode(), old(self).rem())
                    == scan(final(self).cfg(), final(self).mode(), final(self).rem())
                    && (final(self).rem().len() < old(self).rem().len()
                        || (final(self).rem().len() == old(self).rem().len()
                            && mode_rank(final(self).mode()) < mode_rank(old(self).mode()))),
                Err(e) => scan(old(self).cfg(), old(self).mode(), old(self).rem()) == None::<
                    Seq<char>,
                > && e == StripError::UnmatchedClose,
            },
    {
        let ghost cfg = self.cfg();
        let ghost mode0 = self.mode();
        proof {
            lemma_max_pat_len_pos(cfg);
        }
        self.buf.fill_up(&self.iter, &mut self.pos);
        let ghost rem0 = self.rem();
        let ghost tail = self.iter@.skip(self.pos as int);
        proof {
            // refilling moves characters from the source into the buffer but
            // leaves the remaining input as a whole unchanged
            assert(rem0 =~= old(self).rem());
        }
        if self.buf.len() == 0 {
            proof {
                assert(rem0 =~= Seq::<char>::empty());
            }
            return Ok(TriOpt::Exhausted);
        }
        proof {
            assert(rem0[0] == self.buf@[0]);
            assert(rem0.len() >= self.buf@.len());
        }
        let st = self.state;
        match st {
            Mode::InString { delim, escaping } => {
                let c = self.buf.pop_front();
                let ghost popped = *self;
                proof {
                    assert(popped.rem() =~= rem0.drop_first());
                }
                if c == '\\' && !escaping {
                    self.state = Mode::InString { delim, escaping: true };
                    proof {
                        assert(scan(cfg, mode0, rem0) == cons_opt(
                            c,
                            scan(cfg, self.mode(), self.rem()),
                        ));
                    }
                    Ok(TriOpt::Yield(c))
                } else if c == delim && !escaping {
                    self.state = Mode::Code;
                    proof {
                        assert(scan(cfg, mode0, rem0) == cons_opt(
                            c,
                            scan(cfg, self.mode(), self.rem()),
                        ));
                    }
                    Ok(TriOpt::Yield(c))
                } else {
                    self.state = Mode::InString { delim, escaping: false };
                    proof {
                        assert(scan(cfg, mode0, rem0) == cons_opt(
                            c,
                            scan(cfg, self.mode(), self.rem()),
                        ));
                    }
                    Ok(TriOpt::Yield(c))
                }
            },
            Mode::InComment { idx, depth } => {
                proof {
                    assert(cfg[idx as int] == self.comments@[idx as int]@);
                    lemma_max_pat_len_bounds(cfg, idx as int);
                    lemma_window(self.buf@, tail, self.comments@[idx as int]@.close_pat);
                    lemma_window(self.buf@, tail, self.comments@[idx as int]@.open_pat);
                }
                let close_match = self.buf.matches(&self.comments[idx].close_pat);
                if close_match {
                    let ghost rule = cfg[idx as int];
                    if !self.comments[idx].keep_close_pat {
                        let n = self.comments[idx].close_pat.len();
                        self.buf.pop_front_n(n);
                        proof {
                            assert(self.rem() =~= rem0.skip(n as int));
                        }
                    }
                    match depth {
                        None => {
                            self.state = Mode::Code;
                        },
                        Some(d) => {
                            if d == 0 {
                                self.state = Mode::Code;
                            } else {
                                self.state = Mode::InComment { idx, depth: Some(d - 1) };
                            }
                        },
                    }
                    proof {
                        assert(valid_rule(rule));
                        assert(scan(cfg, mode0, rem0) == scan(cfg, self.mode(), self.rem()));
                    }
                    Ok(TriOpt::Wait)
                } else {
                    let nesting_open = match depth {
                        Some(_) => self.buf.matches(&self.comments[idx].open_pat),
                        None => false,
                    };
                    if nesting_open {
                        let n = self.comments[idx].open_pat.len();
                        self.buf.pop_front_n(n);
                        let d = match depth {
                            Some(d) => d,
                            None => 0,
                        };
                        proof {
                            assert(valid_rule(cfg[idx as int]));
                            assert(self.rem() =~= rem0.skip(n as int));
                            assert(self.rem().len() <= rem0.len() - 1);
                        }
                        self.state = Mode::InComment { idx, depth: Some(d + 1) };
                        proof {
                            assert(scan(cfg, mode0, rem0) == scan(cfg, self.mode(), self.rem()));
                        }
                        Ok(TriOpt::Wait)
                    } else {
                        self.buf.pop_front();
                        proof {
                            assert(self.rem() =~= rem0.drop_first());
                            assert(scan(cfg, mode0, rem0) == scan(cfg, self.mode(), self.rem()));
                        }
                        Ok(TriOpt::Wait)
                    }
                }
            },
            Mode::Code => {
                let n_rules = self.comments.len();
                let mut open_idx: Option<usize> = None;
                let mut i: usize = 0;
                while i < n_rules && open_idx.is_none()
                    invariant
                        0 <= i <= n_rules,
                        match open_idx {
                            Some(k) => 0 <= k < n_rules && starts_with(
                                rem0,
                                cfg[k as int].open_pat,
                            ) && forall|j: int|
                                0 <= j < k ==> !starts_with(rem0, (#[trigger] cfg[j]).open_pat),
                            None => forall|j: int|
                                0 <= j < i ==> !starts_with(rem0, (#[trigger] cfg[j]).open_pat),
                        },
                    decreases n_rules - i + (if open_idx is None {
                        1int
                    } else {
                        0int
                    }),
                {
                    proof {
                        assert(cfg[i as int] == self.comments@[i as int]@);
                        lemma_max_pat_len_bounds(cfg, i as int);
                        lemma_window(self.buf@, tail, self.comments@[i as int]@.open_pat);
                    }
                    if self.buf.matches(&self.comments[i].open_pat) {
                        open_idx = Some(i);
                    } else {
                        i += 1;
                    }
                }
                if let Some(k) = open_idx {
                    let total = self.iter.len();
                    proof {
                        assert(forall|j: int|
                            0 <= j < k ==> !starts_with(rem0, (#[trigger] cfg[j]).open_pat));
                        assert(cfg[k as int] == self.comments@[k as int]@);
                        lemma_max_pat_len_bounds(cfg, k as int);
                        lemma_window(
                            self.buf@,
                            tail,
                            self.comments@[k as int]@.open_pat,
                        );
                        assert(starts_with(self.buf@, cfg[k as int].open_pat));
                        lemma_find_open_from(cfg, rem0, 0);
                        if find_open_from(cfg, rem0, 0) is None {
                            assert(!starts_with(rem0, cfg[k as int].open_pat));
                            assert(false);
                        } else {
                            let m: int = find_open_from(cfg, rem0, 0)->Some_0;
                            if m < k as int {
                                assert(!starts_with(rem0, cfg[m].open_pat));
                            }
                            if (k as int) < m {
                                assert(!starts_with(rem0, cfg[k as int].open_pat));
                            }
                            assert(m == k as int);
                        }
                        assert(find_open_from(cfg, rem0, 0) == Some(k as int));
                    }
                    let n = self.comments[k].open_pat.len();
                    self.buf.pop_front_n(n);
                    let nests = self.comments[k].nests;
                    proof {
                        assert(valid_rule(cfg[k as int]));
                        assert(self.rem() =~= rem0.skip(n as int));
                        assert(self.rem().len() <= rem0.len() - 1);
                        assert(self.rem().len() <= total);
                    }
                    if nests {
                        self.state = Mode::InComment { idx: k, depth: Some(0) };
                    } else {
                        self.state = Mode::InComment { idx: k, depth: None };
                    }
                    proof {
                        assert(scan(cfg, mode0, rem0) == scan(cfg, self.mode(), self.rem()));
                    }
                    return Ok(TriOpt::Wait);
                }
                proof {
                    lemma_find_open_from(cfg, rem0, 0);
                    assert(find_open_from(cfg, rem0, 0) is None);
                }
                let mut k: usize = 0;
                while k < n_rules
                    invariant
                        0 <= k <= n_rules,
                        forall|j: int| 0 <= j < k ==> !bad_close_at(cfg, rem0, j),
                    decreases n_rules - k,
                {
                    proof {
                        assert(cfg[k as int] == self.comments@[k as int]@);
                        lemma_max_pat_len_bounds(cfg, k as int);
                        lemma_window(self.buf@, tail, self.comments@[k as int]@.close_pat);
                    }
                    let close_match = self.buf.matches(&self.comments[k].close_pat);
                    if close_match && !self.comments[k].allow_close_pat {
                        proof {
                            assert(bad_close_at(cfg, rem0, k as int));
                            assert(has_bad_close(cfg, rem0));
                            assert(scan(cfg, mode0, rem0) == None::<Seq<char>>);
                        }
                        return Err(StripError::UnmatchedClose);
                    }
                    proof {
                        assert(!bad_close_at(cfg, rem0, k as int));
                    }
                    k += 1;
                }
                proof {
                    assert(!has_bad_close(cfg, rem0));
                }
                let c0 = self.buf.front();
                if c0 == '"' || c0 == '\'' {
                    self.state = Mode::InString { delim: c0, escaping: false };
                    let c = self.buf.pop_front();
                    proof {
                        assert(self.rem() =~= rem0.drop_first());
                        assert(scan(cfg, mode0, rem0) == cons_opt(
                            c,
                            scan(cfg, self.mode(), self.rem()),
                        ));
                    }
                    return Ok(TriOpt::Yield(c));
                }
                let bt: Vec<char> = vec!['`', '`', '`'];
                proof {
                    assert(bt@ =~= backtick_triple());
                    if self.buf.cap() >= 3 {
                        lemma_window(self.buf@, tail, backtick_triple());
                    }
                }
                if self.buf.matches(&bt) {
                    self.buf.pop_front_n(3);
                    self.state = Mode::InString { delim: '`', escaping: false };
                    proof {
                        assert(self.rem() =~= rem0.skip(3));
                        assert(scan(cfg, mode0, rem0) == cons_opt(
                            '`',
                            scan(cfg, self.mode(), self.rem()),
                        ));
                    }
                    return Ok(TriOpt::Yield('`'));
                }
                proof {
                    assert(!(max_pat_len(cfg) >= 3 && starts_with(rem0, backtick_triple())));
                }
                let c = self.buf.pop_front();
                proof {
                    assert(self.rem() =~= rem0.drop_first());
                    assert(scan(cfg, mode0, rem0) == cons_opt(
                        c,
                        scan(cfg, self.mode(), self.rem()),
                    ));
                }
                Ok(TriOpt::Yield(c))
            },
        }
    }

    /// Repeats `next_` until it yields a character, reports the end of the
    /// input, or reports the fatal unmatched-close error: the public
    /// iteration step. The emitted character is the next character of the
    /// mathematical scan of the remaining input.
    #[verifier::loop_isolation(false)]
    pub fn next(&mut self) -> (r: Result<Option<char>, StripError>)
        requires
            old(self).wf(),
        ensures
            final(self).wf(),
            final(self).cfg() == old(self).cfg(),
            match r {
                Ok(Some(c)) => scan(old(self).cfg(), old(self).mode(), old(self).rem())
                    == cons_opt(c, scan(final(self).cfg(), final(self).mode(), final(self).rem()))
                    && final(self).rem().len() < old(self).rem().len(),
                Ok(None) => scan(old(self).cfg(), old(self).mode(), old(self).rem()) == Some(
                    Seq::<char>::empty(),
                ) && final(self).rem().len() == 0,
                Err(e) => scan(old(self).cfg(), old(self).mode(), old(self).rem()) == None::<
                    Seq<char>,
                > && e == StripError::UnmatchedClose,
            },
    {
        loop
            invariant
                self.wf(),
                self.cfg() == old(self).cfg(),
                self.rem().len() <= old(self).rem().len(),
                scan(self.cfg(), self.mode(), self.rem()) == scan(
                    old(self).cfg(),
                    old(self).mode(),
                    old(self).rem(),
                ),
            decreases self.rem().len(), mode_rank(self.mode()),
        {
            match self.next_() {
                Ok(TriOpt::Yield(c)) => {
                    return Ok(Some(c));
                },
                Ok(TriOpt::Exhausted) => {
                    return Ok(None);
                },
                Ok(TriOpt::Wait) => {},
                Err(e) => {
                    return Err(e);
                },
            }
        }
    }
}

/// A source of characters that can be wrapped in a comment-stripping scanner.
pub trait IntoWithoutComments: Sized {
    /// The characters the source will supply, in order.
    spec fn char_seq(self) -> Seq<char>;

    /// Wraps the source in a scanner for the given rule table, sizing the
    /// lookahead buffer to the table's longest pattern.
    fn purge_commentaries(self, language: Vec<Comment>) -> (r: WithoutComments)
        requires
            valid_config(rules_view(language@)),
        ensures
            r.wf(),
            r.mode() == ModeSpec::Code,
            r.rem() == self.char_seq(),
            r.cfg() == rules_view(language@),
    ;
}

impl IntoWithoutComments for Vec<char> {
    open spec fn char_seq(self) -> Seq<char> {
        self@
    }

    #[verifier::loop_isolation(false)]
    fn purge_commentaries(self, language: Vec<Comment>) -> (r: WithoutComments) {
        let ghost cfg = rules_view(language@);
        let n_rules = language.len();
        let mut buf_len: usize = 0;
        let mut i: usize = 0;
        while i < n_rules
            invariant
                0 <= i <= n_rules,
                buf_len as nat == max_pat_len(cfg.take(i as int)),
            decreases n_rules - i,
        {
            let o = language[i].open_pat.len();
            if o > buf_len {
                buf_len = o;
            }
            let c = language[i].close_pat.len();
            if c > buf_len {
                buf_len = c;
            }
            i += 1;
            proof {
                assert(cfg.take(i as int).drop_last() =~= cfg.take(i - 1));
                assert(cfg.take(i as int).last() == cfg[i - 1]);
                assert(cfg[i - 1] == language@[i - 1]@);
            }
        }
        proof {
            assert(cfg.take(n_rules as int) =~= cfg);
        }
        WithoutComments::new(self, language, buf_len)
    }
}

/// Removes the comments that the rule table describes from `input`: the whole
/// scan as one call. The result is exactly what the mathematical scanner
/// `scan` yields on the input, starting in code mode; the error is returned
/// exactly when the scan meets a forbidden unmatched close pattern.
#[verifier::loop_isolation(false)]
pub fn strip(input: Vec<char>, comments: Vec<Comment>) -> (r: Result<Vec<char>, StripError>)
    requires
        valid_config(rules_view(comments@)),
    ensures
        match r {
            Ok(out) => scan(rules_view(comments@), ModeSpec::Code, input@) == Some(out@),
            Err(e) => scan(rules_view(comments@), ModeSpec::Code, input@) == None::<Seq<char>>
                && e == StripError::UnmatchedClose,
        },
{
    let ghost cfg = rules_view(comments@);
    let ghost inp = input@;
    let mut w = input.purge_commentaries(comments);
    let mut out: Vec<char> = Vec::new();
    loop
        invariant
            w.wf(),
            w.cfg() == cfg,
            prepend_opt(out@, scan(cfg, w.mode(), w.rem())) == scan(cfg, ModeSpec::Code, inp),
        decreases w.rem().len(),
    {
        let ghost out0 = out@;
        let ghost scan_cur = scan(cfg, w.mode(), w.rem());
        match w.next() {
            Ok(Some(c)) => {
                out.push(c);
                proof {
                    assert(out@ =~= out0.push(c));
                    let rest = scan(cfg, w.mode(), w.rem());
                    assert(scan_cur == cons_opt(c, rest));
                    if rest is Some {
                        assert(out0 + (seq![c] + rest->Some_0) =~= out0.push(c) + rest->Some_0);
                    }
                    assert(prepend_opt(out@, rest) == prepend_opt(out0, scan_cur));
                }
            },
            Ok(None) => {
                proof {
                    assert(out0 + Seq::<char>::empty() =~= out0);
                    assert(scan(cfg, ModeSpec::Code, inp) == Some(out0));
                }
                return Ok(out);
            },
            Err(e) => {
                proof {
                    assert(scan(cfg, ModeSpec::Code, inp) == None::<Seq<char>>);
                }
                return Err(e);
            },
        }
    }
}

/// The lookahead buffer is a faithful window on the remaining input: as long
/// as the buffer holds at least `pat.len()` characters, or the source behind
/// it is exhausted, testing `pat` against the buffer is the same as testing
/// it against the whole remaining input.
proof fn lemma_window(buf: Seq<char>, tail: Seq<char>, pat: Seq<char>)
    requires
        buf.len() >= pat.len() || tail.len() == 0,
    ensures
        starts_with(buf + tail, pat) == starts_with(buf, pat),
{
    if tail.len() == 0 {
        assert(buf + tail =~= buf);
    } else {
        if pat.len() <= buf.len() {
            assert((buf + tail).subrange(0, pat.len() as int) =~= buf.subrange(
                0,
                pat.len() as int,
            ));
        }
    }
}

} // verus!
