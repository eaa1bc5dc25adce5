use vstd::prelude::*;

verus! {

/// A single quote.
pub open spec fn quote() -> u8 {
    0x27u8
}

/// A backslash.
pub open spec fn backslash() -> u8 {
    0x5cu8
}

/// A backquote.
pub open spec fn backquote() -> u8 {
    0x60u8
}

/// A byte that makes an argument need quoting before a remote shell reads it:
/// `#'" \t\n\r|&;<>()$*?[]^!~%{}`.
pub open spec fn special_byte(b: u8) -> bool {
    b == 0x23 || b == 0x27 || b == 0x22 || b == 0x20 || b == 0x09 || b == 0x0a || b == 0x0d || b
        == 0x7c || b == 0x26 || b == 0x3b || b == 0x3c || b == 0x3e || b == 0x28 || b == 0x29 || b
        == 0x24 || b == 0x2a || b == 0x3f || b == 0x5b || b == 0x5d || b == 0x5e || b == 0x21 || b
        == 0x7e || b == 0x25 || b == 0x7b || b == 0x7d
}

/// Whether `b` makes an argument need quoting.
pub fn is_special_byte(b: u8) -> (r: bool)
    ensures
        r == special_byte(b),
{
    b == 0x23 || b == 0x27 || b == 0x22 || b == 0x20 || b == 0x09 || b == 0x0a || b == 0x0d || b
        == 0x7c || b == 0x26 || b == 0x3b || b == 0x3c || b == 0x3e || b == 0x28 || b == 0x29 || b
        == 0x24 || b == 0x2a || b == 0x3f || b == 0x5b || b == 0x5d || b == 0x5e || b == 0x21 || b
        == 0x7e || b == 0x25 || b == 0x7b || b == 0x7d
}

/// Whether `s` holds a byte that needs quoting.
pub open spec fn needs_quoting(s: Seq<u8>) -> bool {
    exists|i: int| 0 <= i < s.len() && special_byte(#[trigger] s[i])
}

/// What one byte becomes inside single quotes: a quote is closed, escaped
/// and reopened (`'\''`); any other byte stays.
pub open spec fn quoted_piece(b: u8) -> Seq<u8> {
    if b == quote() {
        seq![quote(), backslash(), quote(), quote()]
    } else {
        seq![b]
    }
}

/// The bytes of `s` as they stand between single quotes.
pub open spec fn quoted_body(s: Seq<u8>) -> Seq<u8>
    decreases s.len(),
{
    if s.len() == 0 {
        Seq::empty()
    } else {
        quoted_piece(s[0]) + quoted_body(s.drop_first())
    }
}

/// An argument as it is handed to a remote shell: left alone when no byte
/// needs quoting, else wrapped in single quotes.
pub open spec fn escaped(s: Seq<u8>) -> Seq<u8> {
    if needs_quoting(s) {
        seq![quote()] + quoted_body(s) + seq![quote()]
    } else {
        s
    }
}

/// The value a POSIX shell gives a word that holds no unquoted
/// metacharacter: single quotes are removed and everything between them is
/// taken literally; outside quotes a backslash takes the next byte
/// literally. `quoted` tells whether a single quote is open.
pub open spec fn shell_word(w: Seq<u8>, quoted: bool) -> Seq<u8>
    decreases w.len(),
{
    if w.len() == 0 {
        Seq::empty()
    } else if quoted {
        if w[0] == quote() {
            shell_word(w.drop_first(), false)
        } else {
            seq![w[0]] + shell_word(w.drop_first(), true)
        }
    } else if w[0] == quote() {
        shell_word(w.drop_first(), true)
    } else if w[0] == backslash() && w.len() >= 2 {
        seq![w[1]] + shell_word(w.subrange(2, w.len() as int), false)
    } else {
        seq![w[0]] + shell_word(w.drop_first(), false)
    }
}

proof fn lemma_quoted_body_concat(a: Seq<u8>, b: Seq<u8>)
    ensures
        quoted_body(a + b) == quoted_body(a) + quoted_body(b),
    decreases a.len(),
{
    if a.len() == 0 {
        assert(a + b =~= b);
    } else {
        assert((a + b).drop_first() =~= a.drop_first() + b);
        lemma_quoted_body_concat(a.drop_first(), b);
        assert(quoted_piece(a[0]) + (quoted_body(a.drop_first()) + quoted_body(b)) =~= (
        quoted_piece(a[0]) + quoted_body(a.drop_first())) + quoted_body(b));
    }
}

proof fn lemma_quoted_body_read(s: Seq<u8>, rest: Seq<u8>)
    ensures
        shell_word(quoted_body(s) + rest, true) == s + shell_word(rest, true),
    decreases s.len(),
{
    if s.len() == 0 {
        assert(quoted_body(s) + rest =~= rest);
        assert(s + shell_word(rest, true) =~= shell_word(rest, true));
    } else {
        let tail = quoted_body(s.drop_first()) + rest;
        lemma_quoted_body_read(s.drop_first(), rest);
        let w = quoted_body(s) + rest;
        assert(w =~= quoted_piece(s[0]) + tail);
        if s[0] == quote() {
            let w1 = w.drop_first();
            assert(w1 =~= seq![backslash(), quote(), quote()] + tail);
            let w2 = w1.subrange(2, w1.len() as int);
            assert(w2 =~= seq![quote()] + tail);
            assert(w2.drop_first() =~= tail);
            assert(shell_word(w2, false) == shell_word(tail, true));
            assert(shell_word(w1, false) == seq![quote()] + shell_word(w2, false));
            assert(shell_word(w, true) == shell_word(w1, false));
        } else {
            assert(w.drop_first() =~= tail);
            assert(shell_word(w, true) == seq![s[0]] + shell_word(tail, true));
        }
        assert(s =~= seq![s[0]] + s.drop_first());
        assert(seq![s[0]] + (s.drop_first() + shell_word(rest, true)) =~= s + shell_word(
            rest,
            true,
        ));
    }
}

proof fn lemma_plain_read(s: Seq<u8>)
    requires
        forall|i: int| 0 <= i < s.len() ==> s[i] != quote() && s[i] != backslash(),
    ensures
        shell_word(s, false) == s,
    decreases s.len(),
{
    if s.len() > 0 {
        lemma_plain_read(s.drop_first());
        assert(s =~= seq![s[0]] + s.drop_first());
    }
}

/// A shell that reads an escaped argument gets the argument back. This holds
/// for every argument that is quoted, and for every unquoted one that holds
/// no backslash and no backquote: those two are left alone unquoted, and a
/// shell would give them a meaning of their own.
pub proof fn lemma_escape_round_trip(s: Seq<u8>)
    requires
        needs_quoting(s) || forall|i: int|
            0 <= i < s.len() ==> s[i] != backslash() && s[i] != backquote(),
    ensures
        shell_word(escaped(s), false) == s,
{
    if needs_quoting(s) {
        let w = seq![quote()] + quoted_body(s) + seq![quote()];
        assert(w.drop_first() =~= quoted_body(s) + seq![quote()]);
        lemma_quoted_body_read(s, seq![quote()]);
        assert(seq![quote()].drop_first() =~= Seq::<u8>::empty());
        assert(shell_word(seq![quote()], true) == shell_word(Seq::<u8>::empty(), false));
        assert(s + Seq::<u8>::empty() =~= s);
        assert(escaped(s) == w);
        assert(shell_word(w, false) == shell_word(w.drop_first(), true));
    } else {
        assert forall|i: int| 0 <= i < s.len() implies s[i] != quote() && s[i] != backslash() by {
            assert(!special_byte(s[i]));
        }
        lemma_plain_read(s);
    }
}

/// Quotes an argument for a remote shell: when a byte of it needs quoting,
/// the whole is put in single quotes, each single quote inside becoming
/// `'\''`.
pub fn escape_str(s: &Vec<u8>) -> (r: Vec<u8>)
    ensures
        r@ == escaped(s@),
{
    let mut special = false;
    let mut i: usize = 0;
    while i < s.len()
        invariant
            0 <= i <= s.len(),
            special == exists|j: int| 0 <= j < i && special_byte(#[trigger] s@[j]),
        decreases s.len() - i,
    {
        if is_special_byte(s[i]) {
            special = true;
        }
        i = i + 1;
    }
    if !special {
        return s.clone();
    }
    let mut r: Vec<u8> = Vec::new();
    r.push(0x27u8);
    let mut k: usize = 0;
    while k < s.len()
        invariant
            0 <= k <= s.len(),
            r@ == seq![quote()] + quoted_body(s@.subrange(0, k as int)),
        decreases s.len() - k,
    {
        let b = s[k];
        proof {
            let head = s@.subrange(0, k as int);
            assert(s@.subrange(0, k + 1) =~= head + seq![b]);
            lemma_quoted_body_concat(head, seq![b]);
            assert(seq![b].drop_first() =~= Seq::<u8>::empty());
            assert(quoted_body(seq![b].drop_first()) == Seq::<u8>::empty());
            assert(quoted_body(seq![b]) =~= quoted_piece(b) + Seq::<u8>::empty());
            assert(quoted_body(seq![b]) =~= quoted_piece(b));
        }
        if b == 0x27u8 {
            r.push(0x27u8);
            r.push(0x5cu8);
            r.push(0x27u8);
            r.push(0x27u8);
        } else {
            r.push(b);
        }
        k = k + 1;
    }
    r.push(0x27u8);
    assert(s@.subrange(0, s@.len() as int) =~= s@);
    r
}

} // verus!
