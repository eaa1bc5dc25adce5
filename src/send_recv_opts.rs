use vstd::prelude::*;

use crate::fs::opt_view;
use crate::text::{chars_of, push_str, split_chars, split_view, string_of};

verus! {

/// One flag of a send or receive option string, with its parameter for
/// `o`, `x` and `X`.
#[derive(Clone, Debug)]
pub struct OptionsLine {
    pub option: char,
    pub param: Option<String>,
}

/// The flags of a send or receive option string, in order.
#[derive(Clone, Debug)]
pub struct Opts {
    pub options: Vec<OptionsLine>,
}

/// A flag that takes the next token as its parameter.
pub open spec fn takes_param(c: char) -> bool {
    c == 'o' || c == 'x' || c == 'X'
}

/// A flag as a letter and an optional parameter.
pub type LineView = (char, Option<Seq<char>>);

/// Where reading an option string stands: whether it failed, the flag that
/// waits for its parameter, and the flags read so far.
pub struct ReadState {
    pub failed: bool,
    pub pending: Option<char>,
    pub lines: Seq<LineView>,
}

/// Reading one letter of a token of flags.
pub open spec fn read_letter(st: ReadState, c: char) -> ReadState {
    if st.failed {
        st
    } else if st.pending is Some {
        ReadState { failed: true, ..st }
    } else if takes_param(c) {
        ReadState { pending: Some(c), ..st }
    } else {
        ReadState { lines: st.lines.push((c, None)), ..st }
    }
}

/// Reading the letters of a token of flags.
pub open spec fn read_letters(st: ReadState, tok: Seq<char>) -> ReadState
    decreases tok.len(),
{
    if tok.len() == 0 {
        st
    } else {
        read_letter(read_letters(st, tok.drop_last()), tok.last())
    }
}

/// Reading one space-separated token: empty tokens are skipped; a token
/// after `o`, `x` or `X` is its parameter; any other is a run of flags.
pub open spec fn read_token(st: ReadState, tok: Seq<char>) -> ReadState {
    if st.failed || tok.len() == 0 {
        st
    } else {
        match st.pending {
            Some(c) => ReadState { pending: None, lines: st.lines.push((c, Some(tok))), ..st },
            None => read_letters(st, tok),
        }
    }
}

/// Reading a sequence of tokens.
pub open spec fn read_tokens(toks: Seq<Seq<char>>) -> ReadState
    decreases toks.len(),
{
    if toks.len() == 0 {
        ReadState { failed: false, pending: None, lines: Seq::empty() }
    } else {
        read_token(read_tokens(toks.drop_last()), toks.last())
    }
}

/// Reading an option string.
pub open spec fn read_options(s: Seq<char>) -> ReadState {
    read_tokens(split_view(s, ' '))
}

/// The views of the flags.
pub open spec fn line_views(v: Seq<OptionsLine>) -> Seq<LineView> {
    v.map_values(|l: OptionsLine| (l.option, opt_view(l.param)))
}

/// The argument vector built from the allowed flags: a run of flags
/// without parameters goes behind one dash; a flag with a parameter ends
/// the run and goes alone behind a dash of its own, followed by the
/// parameter. Returns the open run and the arguments before it.
pub open spec fn allowed_fold(lines: Seq<LineView>, allowed: Seq<char>) -> (Seq<char>, Seq<
    Seq<char>,
>)
    decreases lines.len(),
{
    if lines.len() == 0 {
        (seq!['-'], Seq::empty())
    } else {
        let (run, out) = allowed_fold(lines.drop_last(), allowed);
        let (c, param) = lines.last();
        if !allowed.contains(c) {
            (run, out)
        } else {
            match param {
                None => (run.push(c), out),
                Some(p) => (seq!['-'], (if run.len() > 1 {
                    out.push(run)
                } else {
                    out
                }) + seq![seq!['-', c], p]),
            }
        }
    }
}

/// The arguments for the allowed flags.
pub open spec fn allowed_argv(lines: Seq<LineView>, allowed: Seq<char>) -> Seq<Seq<char>> {
    let (run, out) = allowed_fold(lines, allowed);
    if run.len() > 1 {
        out.push(run)
    } else {
        out
    }
}

proof fn lemma_line_views_push(v: Seq<OptionsLine>, l: OptionsLine)
    ensures
        line_views(v.push(l)) == line_views(v).push((l.option, opt_view(l.param))),
{
    let a = line_views(v.push(l));
    let b = line_views(v).push((l.option, opt_view(l.param)));
    assert forall|i: int| 0 <= i < a.len() implies a[i] == b[i] by {
        if i < v.len() {
            assert(v.push(l)[i] == v[i]);
        } else {
            assert(v.push(l)[i] == l);
        }
    }
    assert(a =~= b);
}

/// Whether `c` is one of `allowed`.
fn allowed_has(allowed: &Vec<char>, c: char) -> (r: bool)
    ensures
        r == allowed@.contains(c),
{
    let mut i: usize = 0;
    while i < allowed.len()
        invariant
            0 <= i <= allowed.len(),
            forall|j: int| 0 <= j < i ==> allowed@[j] != c,
        decreases allowed.len() - i,
    {
        if allowed[i] == c {
            return true;
        }
        i = i + 1;
    }
    false
}

impl Opts {
    /// Reads a space-separated option string of single-letter flags, where
    /// `o`, `x` and `X` take the next token as their parameter.
    pub fn try_from_str(value: &str) -> (r: Result<Opts, &'static str>)
        ensures
            r is Ok <==> !read_options(value@).failed && read_options(value@).pending is None,
            r matches Ok(o) ==> line_views(o.options@) == read_options(value@).lines,
    {
        let cs = chars_of(value);
        let toks = split_chars(&cs, ' ');
        let ghost tv = toks@.map_values(|p: Vec<char>| p@);
        let mut options: Vec<OptionsLine> = Vec::new();
        let mut pending: Option<char> = None;
        let mut failed = false;
        assert(line_views(options@) =~= Seq::<LineView>::empty());
        assert(tv.subrange(0, 0) =~= Seq::<Seq<char>>::empty());
        let mut t: usize = 0;
        while t < toks.len()
            invariant
                tv == toks@.map_values(|p: Vec<char>| p@),
                tv == split_view(value@, ' '),
                0 <= t <= toks.len(),
                read_tokens(tv.subrange(0, t as int)) == (ReadState {
                    failed,
                    pending,
                    lines: line_views(options@),
                }),
            decreases toks.len() - t,
        {
            let tok = &toks[t];
            proof {
                let sub = tv.subrange(0, t + 1);
                assert(sub.drop_last() =~= tv.subrange(0, t as int));
                assert(sub.last() == tok@);
            }
            if !failed && tok.len() > 0 {
                match pending {
                    Some(c) => {
                        let ghost before = line_views(options@);
                        let line = OptionsLine { option: c, param: Some(string_of(tok)) };
                        assert(opt_view(line.param) == Some(tok@));
                        proof {
                            lemma_line_views_push(options@, line);
                        }
                        options.push(line);
                        pending = None;
                    },
                    None => {
                        let ghost st0 = ReadState {
                            failed: false,
                            pending: None,
                            lines: line_views(options@),
                        };
                        assert(tok@.subrange(0, 0) =~= Seq::<char>::empty());
                        let mut k: usize = 0;
                        while k < tok.len()
                            invariant
                                0 <= k <= tok.len(),
                                read_letters(st0, tok@.subrange(0, k as int)) == (ReadState {
                                    failed,
                                    pending,
                                    lines: line_views(options@),
                                }),
                            decreases tok.len() - k,
                        {
                            let c = tok[k];
                            proof {
                                let sub = tok@.subrange(0, k + 1);
                                assert(sub.drop_last() =~= tok@.subrange(0, k as int));
                            }
                            if failed {
                            } else if pending.is_some() {
                                failed = true;
                            } else if c == 'o' || c == 'x' || c == 'X' {
                                pending = Some(c);
                            } else {
                                let ghost before = line_views(options@);
                                let line = OptionsLine { option: c, param: None };
                                proof {
                                    lemma_line_views_push(options@, line);
                                }
                                options.push(line);
                            }
                            k = k + 1;
                        }
                        assert(tok@.subrange(0, tok.len() as int) =~= tok@);
                    },
                }
            }
            t = t + 1;
        }
        assert(tv.subrange(0, toks.len() as int) =~= tv);
        if failed {
            return Err(
                "found another single letter options after o, x, or X instead of the option value",
            );
        }
        if pending.is_some() {
            return Err("did not find value after o, x, or X option");
        }
        Ok(Opts { options })
    }

    /// The arguments for the flags that `allowed` holds.
    pub fn filter_allowed(&self, allowed: &Vec<char>) -> (r: Vec<String>)
        ensures
            r@.map_values(|s: String| s@) == allowed_argv(line_views(self.options@), allowed@),
    {
        let ghost lv = line_views(self.options@);
        let mut run: Vec<char> = vec!['-'];
        let mut out: Vec<String> = Vec::new();
        let mut i: usize = 0;
        while i < self.options.len()
            invariant
                0 <= i <= self.options.len(),
                lv == line_views(self.options@),
                allowed_fold(lv.subrange(0, i as int), allowed@) == (run@, out@.map_values(
                    |s: String| s@,
                )),
            decreases self.options.len() - i,
        {
            let line = &self.options[i];
            proof {
                let sub = lv.subrange(0, i + 1);
                assert(sub.drop_last() =~= lv.subrange(0, i as int));
                assert(sub.last() == (line.option, opt_view(line.param)));
            }
            if allowed_has(allowed, line.option) {
                match &line.param {
                    None => {
                        run.push(line.option);
                    },
                    Some(p) => {
                        let ghost before = out@.map_values(|s: String| s@);
                        if run.len() > 1 {
                            out.push(string_of(&run));
                        }
                        let ghost mid = out@.map_values(|s: String| s@);
                        assert(mid =~= if run@.len() > 1 {
                            before.push(run@)
                        } else {
                            before
                        });
                        let flag = vec!['-', line.option];
                        out.push(string_of(&flag));
                        out.push(p.clone());
                        assert(out@.map_values(|s: String| s@) =~= mid + seq![
                            seq!['-', line.option],
                            p@,
                        ]);
                        run = vec!['-'];
                    },
                }
            }
            i = i + 1;
        }
        assert(lv.subrange(0, self.options.len() as int) =~= lv);
        let ghost before = out@.map_values(|s: String| s@);
        if run.len() > 1 {
            out.push(string_of(&run));
            assert(out@.map_values(|s: String| s@) =~= before.push(run@));
        }
        out
    }
}

/// Writing flags back: runs of flags behind one dash, a parameter after its
/// flag and a space, and a new dash after each parameter. Returns whether a
/// dash is open, whether a parameter came last, and the text.
pub open spec fn opts_text_fold(lines: Seq<LineView>) -> (bool, bool, Seq<char>)
    decreases lines.len(),
{
    if lines.len() == 0 {
        (false, false, Seq::empty())
    } else {
        let (dash, after, t) = opts_text_fold(lines.drop_last());
        let (c, param) = lines.last();
        let t1 = if after {
            t.push(' ')
        } else {
            t
        };
        let t2 = if !dash {
            t1.push('-')
        } else {
            t1
        };
        match param {
            Some(p) => (false, true, t2.push(c) + seq![' '] + p),
            None => (true, false, t2.push(c)),
        }
    }
}

impl Opts {
    /// The flags written back as an option string.
    pub fn to_text(&self) -> (r: String)
        ensures
            r@ == opts_text_fold(line_views(self.options@)).2,
    {
        let ghost lv = line_views(self.options@);
        let mut dash = false;
        let mut after = false;
        let mut buf: Vec<char> = Vec::new();
        let mut i: usize = 0;
        while i < self.options.len()
            invariant
                0 <= i <= self.options.len(),
                lv == line_views(self.options@),
                opts_text_fold(lv.subrange(0, i as int)) == (dash, after, buf@),
                after ==> !dash,
            decreases self.options.len() - i,
        {
            let line = &self.options[i];
            proof {
                let sub = lv.subrange(0, i + 1);
                assert(sub.drop_last() =~= lv.subrange(0, i as int));
                assert(sub.last() == (line.option, opt_view(line.param)));
            }
            if after {
                buf.push(' ');
                after = false;
            }
            if !dash {
                buf.push('-');
                dash = true;
            }
            buf.push(line.option);
            match &line.param {
                Some(p) => {
                    let ghost before = buf@;
                    buf.push(' ');
                    push_str(&mut buf, p.as_str());
                    assert(buf@ =~= before + seq![' '] + p@);
                    dash = false;
                    after = true;
                },
                None => {},
            }
            i = i + 1;
        }
        assert(lv.subrange(0, self.options.len() as int) =~= lv);
        string_of(&buf)
    }
}

} // verus!
