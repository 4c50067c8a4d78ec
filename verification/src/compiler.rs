//! The script compiler: tokenizes and parses raw filter-script source into
//! a validated [`CompiledScript`], or rejects it with a structured fault —
//! unknown commands, unsupported `require` capabilities, malformed mailbox
//! paths and unresolvable `include` targets are all caught here, never at
//! run time.  Compilation is pure: it touches no shared state.
//!
//! The grammar's meaning is fixed by the spec-level lexer [`lex_from`] and
//! parser [`parse_cmds`]; the executable compiler is proved to return
//! exactly what they say.

use vstd::prelude::*;

use crate::ast::{CompiledScript, EnvelopePart, Instr, Test};
use crate::bytes::{bytes_eq, copy_bytes};
use crate::errors::CompileFault;
use crate::pipeline::deep_view;

verus! {

/// The keyword `require` as bytes.
pub open spec fn kw_require() -> Seq<u8> {
    seq![114u8, 101u8, 113u8, 117u8, 105u8, 114u8, 101u8]
}

fn is_require(w: &Vec<u8>) -> (r: bool)
    ensures
        r == (w@ == kw_require()),
{
    let v: Vec<u8> = vec![114u8, 101u8, 113u8, 117u8, 105u8, 114u8, 101u8];
    proof {
        assert(v@ =~= kw_require());
    }
    bytes_eq(w, &v)
}

/// The keyword `fileinto` as bytes.
pub open spec fn kw_fileinto() -> Seq<u8> {
    seq![102u8, 105u8, 108u8, 101u8, 105u8, 110u8, 116u8, 111u8]
}

fn is_fileinto(w: &Vec<u8>) -> (r: bool)
    ensures
        r == (w@ == kw_fileinto()),
{
    let v: Vec<u8> = vec![102u8, 105u8, 108u8, 101u8, 105u8, 110u8, 116u8, 111u8];
    proof {
        assert(v@ =~= kw_fileinto());
    }
    bytes_eq(w, &v)
}

/// The keyword `addflag` as bytes.
pub open spec fn kw_addflag() -> Seq<u8> {
    seq![97u8, 100u8, 100u8, 102u8, 108u8, 97u8, 103u8]
}

fn is_addflag(w: &Vec<u8>) -> (r: bool)
    ensures
        r == (w@ == kw_addflag()),
{
    let v: Vec<u8> = vec![97u8, 100u8, 100u8, 102u8, 108u8, 97u8, 103u8];
    proof {
        assert(v@ =~= kw_addflag());
    }
    bytes_eq(w, &v)
}

/// The keyword `keep` as bytes.
pub open spec fn kw_keep() -> Seq<u8> {
    seq![107u8, 101u8, 101u8, 112u8]
}

fn is_keep(w: &Vec<u8>) -> (r: bool)
    ensures
        r == (w@ == kw_keep()),
{
    let v: Vec<u8> = vec![107u8, 101u8, 101u8, 112u8];
    proof {
        assert(v@ =~= kw_keep());
    }
    bytes_eq(w, &v)
}

/// The keyword `discard` as bytes.
pub open spec fn kw_discard() -> Seq<u8> {
    seq![100u8, 105u8, 115u8, 99u8, 97u8, 114u8, 100u8]
}

fn is_discard(w: &Vec<u8>) -> (r: bool)
    ensures
        r == (w@ == kw_discard()),
{
    let v: Vec<u8> = vec![100u8, 105u8, 115u8, 99u8, 97u8, 114u8, 100u8];
    proof {
        assert(v@ =~= kw_discard());
    }
    bytes_eq(w, &v)
}

/// The keyword `stop` as bytes.
pub open spec fn kw_stop() -> Seq<u8> {
    seq![115u8, 116u8, 111u8, 112u8]
}

fn is_stop(w: &Vec<u8>) -> (r: bool)
    ensures
        r == (w@ == kw_stop()),
{
    let v: Vec<u8> = vec![115u8, 116u8, 111u8, 112u8];
    proof {
        assert(v@ =~= kw_stop());
    }
    bytes_eq(w, &v)
}

/// The keyword `reject` as bytes.
pub open spec fn kw_reject() -> Seq<u8> {
    seq![114u8, 101u8, 106u8, 101u8, 99u8, 116u8]
}

fn is_reject(w: &Vec<u8>) -> (r: bool)
    ensures
        r == (w@ == kw_reject()),
{
    let v: Vec<u8> = vec![114u8, 101u8, 106u8, 101u8, 99u8, 116u8];
    proof {
        assert(v@ =~= kw_reject());
    }
    bytes_eq(w, &v)
}

/// The keyword `redirect` as bytes.
pub open spec fn kw_redirect() -> Seq<u8> {
    seq![114u8, 101u8, 100u8, 105u8, 114u8, 101u8, 99u8, 116u8]
}

fn is_redirect(w: &Vec<u8>) -> (r: bool)
    ensures
        r == (w@ == kw_redirect()),
{
    let v: Vec<u8> = vec![114u8, 101u8, 100u8, 105u8, 114u8, 101u8, 99u8, 116u8];
    proof {
        assert(v@ =~= kw_redirect());
    }
    bytes_eq(w, &v)
}

/// The keyword `notify` as bytes.
pub open spec fn kw_notify() -> Seq<u8> {
    seq![110u8, 111u8, 116u8, 105u8, 102u8, 121u8]
}

fn is_notify(w: &Vec<u8>) -> (r: bool)
    ensures
        r == (w@ == kw_notify()),
{
    let v: Vec<u8> = vec![110u8, 111u8, 116u8, 105u8, 102u8, 121u8];
    proof {
        assert(v@ =~= kw_notify());
    }
    bytes_eq(w, &v)
}

/// The keyword `include` as bytes.
pub open spec fn kw_include() -> Seq<u8> {
    seq![105u8, 110u8, 99u8, 108u8, 117u8, 100u8, 101u8]
}

fn is_include(w: &Vec<u8>) -> (r: bool)
    ensures
        r == (w@ == kw_include()),
{
    let v: Vec<u8> = vec![105u8, 110u8, 99u8, 108u8, 117u8, 100u8, 101u8];
    proof {
        assert(v@ =~= kw_include());
    }
    bytes_eq(w, &v)
}

/// The keyword `if` as bytes.
pub open spec fn kw_if() -> Seq<u8> {
    seq![105u8, 102u8]
}

fn is_if(w: &Vec<u8>) -> (r: bool)
    ensures
        r == (w@ == kw_if()),
{
    let v: Vec<u8> = vec![105u8, 102u8];
    proof {
        assert(v@ =~= kw_if());
    }
    bytes_eq(w, &v)
}

/// The keyword `elsif` as bytes.
pub open spec fn kw_elsif() -> Seq<u8> {
    seq![101u8, 108u8, 115u8, 105u8, 102u8]
}

fn is_elsif(w: &Vec<u8>) -> (r: bool)
    ensures
        r == (w@ == kw_elsif()),
{
    let v: Vec<u8> = vec![101u8, 108u8, 115u8, 105u8, 102u8];
    proof {
        assert(v@ =~= kw_elsif());
    }
    bytes_eq(w, &v)
}

/// The keyword `else` as bytes.
pub open spec fn kw_else() -> Seq<u8> {
    seq![101u8, 108u8, 115u8, 101u8]
}

fn is_else(w: &Vec<u8>) -> (r: bool)
    ensures
        r == (w@ == kw_else()),
{
    let v: Vec<u8> = vec![101u8, 108u8, 115u8, 101u8];
    proof {
        assert(v@ =~= kw_else());
    }
    bytes_eq(w, &v)
}

/// The keyword `true` as bytes.
pub open spec fn kw_true() -> Seq<u8> {
    seq![116u8, 114u8, 117u8, 101u8]
}

fn is_true(w: &Vec<u8>) -> (r: bool)
    ensures
        r == (w@ == kw_true()),
{
    let v: Vec<u8> = vec![116u8, 114u8, 117u8, 101u8];
    proof {
        assert(v@ =~= kw_true());
    }
    bytes_eq(w, &v)
}

/// The keyword `false` as bytes.
pub open spec fn kw_false() -> Seq<u8> {
    seq![102u8, 97u8, 108u8, 115u8, 101u8]
}

fn is_false(w: &Vec<u8>) -> (r: bool)
    ensures
        r == (w@ == kw_false()),
{
    let v: Vec<u8> = vec![102u8, 97u8, 108u8, 115u8, 101u8];
    proof {
        assert(v@ =~= kw_false());
    }
    bytes_eq(w, &v)
}

/// The keyword `header` as bytes.
pub open spec fn kw_header() -> Seq<u8> {
    seq![104u8, 101u8, 97u8, 100u8, 101u8, 114u8]
}

fn is_header(w: &Vec<u8>) -> (r: bool)
    ensures
        r == (w@ == kw_header()),
{
    let v: Vec<u8> = vec![104u8, 101u8, 97u8, 100u8, 101u8, 114u8];
    proof {
        assert(v@ =~= kw_header());
    }
    bytes_eq(w, &v)
}

/// The keyword `envelope` as bytes.
pub open spec fn kw_envelope() -> Seq<u8> {
    seq![101u8, 110u8, 118u8, 101u8, 108u8, 111u8, 112u8, 101u8]
}

fn is_envelope(w: &Vec<u8>) -> (r: bool)
    ensures
        r == (w@ == kw_envelope()),
{
    let v: Vec<u8> = vec![101u8, 110u8, 118u8, 101u8, 108u8, 111u8, 112u8, 101u8];
    proof {
        assert(v@ =~= kw_envelope());
    }
    bytes_eq(w, &v)
}

/// The keyword `duplicate` as bytes.
pub open spec fn kw_duplicate() -> Seq<u8> {
    seq![100u8, 117u8, 112u8, 108u8, 105u8, 99u8, 97u8, 116u8, 101u8]
}

fn is_duplicate(w: &Vec<u8>) -> (r: bool)
    ensures
        r == (w@ == kw_duplicate()),
{
    let v: Vec<u8> = vec![100u8, 117u8, 112u8, 108u8, 105u8, 99u8, 97u8, 116u8, 101u8];
    proof {
        assert(v@ =~= kw_duplicate());
    }
    bytes_eq(w, &v)
}

/// The keyword `from` as bytes.
pub open spec fn kw_from() -> Seq<u8> {
    seq![102u8, 114u8, 111u8, 109u8]
}

fn is_from(w: &Vec<u8>) -> (r: bool)
    ensures
        r == (w@ == kw_from()),
{
    let v: Vec<u8> = vec![102u8, 114u8, 111u8, 109u8];
    proof {
        assert(v@ =~= kw_from());
    }
    bytes_eq(w, &v)
}

/// The keyword `to` as bytes.
pub open spec fn kw_to() -> Seq<u8> {
    seq![116u8, 111u8]
}

fn is_to(w: &Vec<u8>) -> (r: bool)
    ensures
        r == (w@ == kw_to()),
{
    let v: Vec<u8> = vec![116u8, 111u8];
    proof {
        assert(v@ =~= kw_to());
    }
    bytes_eq(w, &v)
}

/// The capability name `imap4flags` as bytes.
pub open spec fn kw_imap4flags() -> Seq<u8> {
    seq![105u8, 109u8, 97u8, 112u8, 52u8, 102u8, 108u8, 97u8, 103u8, 115u8]
}

fn is_imap4flags(w: &Vec<u8>) -> (r: bool)
    ensures
        r == (w@ == kw_imap4flags()),
{
    let v: Vec<u8> = vec![105u8, 109u8, 97u8, 112u8, 52u8, 102u8, 108u8, 97u8, 103u8, 115u8];
    proof {
        assert(v@ =~= kw_imap4flags());
    }
    bytes_eq(w, &v)
}

/// The capability name `enotify` as bytes.
pub open spec fn kw_enotify() -> Seq<u8> {
    seq![101u8, 110u8, 111u8, 116u8, 105u8, 102u8, 121u8]
}

fn is_enotify(w: &Vec<u8>) -> (r: bool)
    ensures
        r == (w@ == kw_enotify()),
{
    let v: Vec<u8> = vec![101u8, 110u8, 111u8, 116u8, 105u8, 102u8, 121u8];
    proof {
        assert(v@ =~= kw_enotify());
    }
    bytes_eq(w, &v)
}

/// The capability name `mailbox` as bytes.
pub open spec fn kw_mailbox() -> Seq<u8> {
    seq![109u8, 97u8, 105u8, 108u8, 98u8, 111u8, 120u8]
}

fn is_mailbox(w: &Vec<u8>) -> (r: bool)
    ensures
        r == (w@ == kw_mailbox()),
{
    let v: Vec<u8> = vec![109u8, 97u8, 105u8, 108u8, 98u8, 111u8, 120u8];
    proof {
        assert(v@ =~= kw_mailbox());
    }
    bytes_eq(w, &v)
}

/// The `require`able capabilities the engine supports.
pub open spec fn supported_cap(c: Seq<u8>) -> bool {
    c == kw_fileinto() || c == kw_imap4flags() || c == kw_reject() || c == kw_envelope() || c == kw_duplicate() || c == kw_include() || c == kw_enotify() || c == kw_mailbox()
}

fn check_cap(c: &Vec<u8>) -> (r: bool)
    ensures
        r == supported_cap(c@),
{
    is_fileinto(c) || is_imap4flags(c) || is_reject(c) || is_envelope(c) || is_duplicate(c) || is_include(c) || is_enotify(c) || is_mailbox(c)
}


/// One source token.
#[derive(Debug, PartialEq, Eq)]
pub enum Tok {
    Ident(Vec<u8>),
    Str(Vec<u8>),
    LBrace,
    RBrace,
    Semi,
}

/// The mathematical value of a token.
pub enum TokV {
    Ident(Seq<u8>),
    Str(Seq<u8>),
    LBrace,
    RBrace,
    Semi,
}

impl View for Tok {
    type V = TokV;

    open spec fn view(&self) -> TokV {
        match self {
            Tok::Ident(w) => TokV::Ident(w@),
            Tok::Str(v) => TokV::Str(v@),
            Tok::LBrace => TokV::LBrace,
            Tok::RBrace => TokV::RBrace,
            Tok::Semi => TokV::Semi,
        }
    }
}

/// The mathematical value of a token list.
pub open spec fn toks_view(t: Seq<Tok>) -> Seq<TokV> {
    t.map_values(|x: Tok| x@)
}

/// Source whitespace: space, tab, CR, LF.
pub open spec fn is_ws(c: u8) -> bool {
    c == 32 || c == 9 || c == 13 || c == 10
}

/// Bytes an identifier is made of.
pub open spec fn is_ident_char(c: u8) -> bool {
    (97 <= c <= 122) || (65 <= c <= 90) || (48 <= c <= 57) || c == 95
}

/// The first position at or after `i` that is not an identifier byte.
pub open spec fn ident_end(s: Seq<u8>, i: int) -> int
    decreases s.len() - i,
{
    if i < 0 || i >= s.len() {
        i
    } else if is_ident_char(s[i]) {
        ident_end(s, i + 1)
    } else {
        i
    }
}

/// The first position at or after `i` holding a double quote, or the end.
pub open spec fn str_end(s: Seq<u8>, i: int) -> int
    decreases s.len() - i,
{
    if i < 0 || i >= s.len() {
        s.len() as int
    } else if s[i] == 34 {
        i
    } else {
        str_end(s, i + 1)
    }
}

proof fn lemma_ident_end(s: Seq<u8>, i: int)
    requires
        0 <= i <= s.len(),
    ensures
        i <= ident_end(s, i) <= s.len(),
        forall|k: int| i <= k < ident_end(s, i) ==> is_ident_char(#[trigger] s[k]),
        ident_end(s, i) < s.len() ==> !is_ident_char(s[ident_end(s, i)]),
    decreases s.len() - i,
{
    if i < s.len() && is_ident_char(s[i]) {
        lemma_ident_end(s, i + 1);
    }
}

proof fn lemma_str_end(s: Seq<u8>, i: int)
    requires
        0 <= i <= s.len(),
    ensures
        i <= str_end(s, i) <= s.len(),
        forall|k: int| i <= k < str_end(s, i) ==> #[trigger] s[k] != 34,
        str_end(s, i) < s.len() ==> s[str_end(s, i)] == 34,
    decreases s.len() - i,
{
    if i < s.len() && s[i] != 34 {
        lemma_str_end(s, i + 1);
    }
}

/// Puts one token in front of a lexing result.
pub open spec fn cons_tok(t: TokV, r: Result<Seq<TokV>, CompileFault>) -> Result<
    Seq<TokV>,
    CompileFault,
> {
    match r {
        Result::Ok(ts) => Result::Ok(seq![t] + ts),
        Result::Err(f) => Result::Err(f),
    }
}

/// The tokens of the source from position `i` on, or the first fault.
pub open spec fn lex_from(s: Seq<u8>, i: int) -> Result<Seq<TokV>, CompileFault>
    decreases s.len() - i,
{
    if i < 0 || i >= s.len() {
        Result::Ok(Seq::empty())
    } else if is_ws(s[i]) {
        lex_from(s, i + 1)
    } else if s[i] == 123 {
        cons_tok(TokV::LBrace, lex_from(s, i + 1))
    } else if s[i] == 125 {
        cons_tok(TokV::RBrace, lex_from(s, i + 1))
    } else if s[i] == 59 {
        cons_tok(TokV::Semi, lex_from(s, i + 1))
    } else if s[i] == 34 {
        let e = str_end(s, i + 1);
        if i + 1 <= e < s.len() {
            cons_tok(TokV::Str(s.subrange(i + 1, e)), lex_from(s, e + 1))
        } else {
            Result::Err(CompileFault::UnterminatedString)
        }
    } else if is_ident_char(s[i]) {
        let e = ident_end(s, i);
        if i < e <= s.len() {
            cons_tok(TokV::Ident(s.subrange(i, e)), lex_from(s, e))
        } else {
            Result::Err(CompileFault::BadCharacter)
        }
    } else {
        Result::Err(CompileFault::BadCharacter)
    }
}

/// Puts already-lexed tokens in front of a lexing result.
pub open spec fn lex_prepend(pre: Seq<TokV>, r: Result<Seq<TokV>, CompileFault>) -> Result<
    Seq<TokV>,
    CompileFault,
> {
    match r {
        Result::Ok(ts) => Result::Ok(pre + ts),
        Result::Err(f) => Result::Err(f),
    }
}

/// Tokenizes the whole source, or reports the first fault.
pub fn lex(src: &Vec<u8>) -> (r: Result<Vec<Tok>, CompileFault>)
    ensures
        match r {
            Result::Ok(ts) => lex_from(src@, 0) == Result::<Seq<TokV>, CompileFault>::Ok(
                toks_view(ts@),
            ),
            Result::Err(f) => lex_from(src@, 0) == Result::<Seq<TokV>, CompileFault>::Err(f),
        },
{
    let n = src.len();
    let mut out: Vec<Tok> = Vec::new();
    let mut i: usize = 0;
    while i < n
        invariant
            i <= n,
            n == src@.len(),
            lex_from(src@, 0) == lex_prepend(toks_view(out@), lex_from(src@, i as int)),
        decreases n - i,
    {
        let c = src[i];
        if c == 32 || c == 9 || c == 13 || c == 10 {
            i += 1;
        } else if c == 123 || c == 125 || c == 59 {
            let t = if c == 123 {
                Tok::LBrace
            } else if c == 125 {
                Tok::RBrace
            } else {
                Tok::Semi
            };
            proof {
                let ghost cont = lex_from(src@, i as int + 1);
                assert(lex_from(src@, i as int) == cons_tok(t@, cont));
                match cont {
                    Result::Ok(ts) => {
                        assert(toks_view(out@.push(t)) =~= toks_view(out@).push(t@));
                        assert(toks_view(out@) + (seq![t@] + ts) =~= toks_view(out@).push(t@) + ts);
                    },
                    Result::Err(_) => {},
                }
            }
            out.push(t);
            i += 1;
        } else if c == 34 {
            // find the closing quote
            let mut j = i + 1;
            while j < n && src[j] != 34
                invariant
                    i + 1 <= j <= n,
                    n == src@.len(),
                    forall|k: int| i + 1 <= k < j ==> #[trigger] src@[k] != 34,
                decreases n - j,
            {
                j += 1;
            }
            proof {
                lemma_str_end(src@, i as int + 1);
                if j < n {
                    assert(str_end(src@, i as int + 1) == j as int) by {
                        if str_end(src@, i as int + 1) < j {
                            assert(src@[str_end(src@, i as int + 1)] != 34);
                        }
                        if str_end(src@, i as int + 1) > j {
                            assert(src@[j as int] != 34);
                        }
                    }
                } else {
                    assert(str_end(src@, i as int + 1) == src@.len()) by {
                        if str_end(src@, i as int + 1) < src@.len() {
                            assert(src@[str_end(src@, i as int + 1)] == 34);
                        }
                    }
                }
            }
            if j >= n {
                assert(lex_from(src@, i as int) == Result::<Seq<TokV>, CompileFault>::Err(
                    CompileFault::UnterminatedString,
                ));
                return Err(CompileFault::UnterminatedString);
            }
            let mut lit: Vec<u8> = Vec::new();
            let mut k = i + 1;
            while k < j
                invariant
                    i + 1 <= k <= j,
                    j < n,
                    n == src@.len(),
                    lit@ == src@.subrange(i as int + 1, k as int),
                decreases j - k,
            {
                lit.push(src[k]);
                proof {
                    assert(lit@ =~= src@.subrange(i as int + 1, k as int + 1));
                }
                k += 1;
            }
            let t = Tok::Str(lit);
            proof {
                let ghost cont = lex_from(src@, j as int + 1);
                assert(lex_from(src@, i as int) == cons_tok(t@, cont));
                match cont {
                    Result::Ok(ts) => {
                        assert(toks_view(out@.push(t)) =~= toks_view(out@).push(t@));
                        assert(toks_view(out@) + (seq![t@] + ts) =~= toks_view(out@).push(t@) + ts);
                    },
                    Result::Err(_) => {},
                }
            }
            out.push(t);
            i = j + 1;
        } else if (97 <= c && c <= 122) || (65 <= c && c <= 90) || (48 <= c && c <= 57) || c == 95 {
            let mut j = i + 1;
            while j < n && ((97 <= src[j] && src[j] <= 122) || (65 <= src[j] && src[j] <= 90) || (48
                <= src[j] && src[j] <= 57) || src[j] == 95)
                invariant
                    i + 1 <= j <= n,
                    n == src@.len(),
                    forall|k: int| i <= k < j ==> is_ident_char(#[trigger] src@[k]),
                decreases n - j,
            {
                j += 1;
            }
            proof {
                lemma_ident_end(src@, i as int);
                assert(ident_end(src@, i as int) == j as int) by {
                    if ident_end(src@, i as int) < j {
                        assert(is_ident_char(src@[ident_end(src@, i as int)]));
                    }
                    if ident_end(src@, i as int) > j {
                        assert(j < src@.len() && !is_ident_char(src@[j as int]));
                    }
                }
            }
            let mut lit: Vec<u8> = Vec::new();
            let mut k = i;
            while k < j
                invariant
                    i <= k <= j,
                    j <= n,
                    n == src@.len(),
                    lit@ == src@.subrange(i as int, k as int),
                decreases j - k,
            {
                lit.push(src[k]);
                proof {
                    assert(lit@ =~= src@.subrange(i as int, k as int + 1));
                }
                k += 1;
            }
            let t = Tok::Ident(lit);
            proof {
                let ghost cont = lex_from(src@, j as int);
                assert(lex_from(src@, i as int) == cons_tok(t@, cont));
                match cont {
                    Result::Ok(ts) => {
                        assert(toks_view(out@.push(t)) =~= toks_view(out@).push(t@));
                        assert(toks_view(out@) + (seq![t@] + ts) =~= toks_view(out@).push(t@) + ts);
                    },
                    Result::Err(_) => {},
                }
            }
            out.push(t);
            i = j;
        } else {
            assert(lex_from(src@, i as int) == Result::<Seq<TokV>, CompileFault>::Err(
                CompileFault::BadCharacter,
            ));
            return Err(CompileFault::BadCharacter);
        }
    }
    proof {
        assert(lex_from(src@, n as int) == Result::<Seq<TokV>, CompileFault>::Ok(Seq::empty()));
        assert(toks_view(out@) + Seq::<TokV>::empty() =~= toks_view(out@));
    }
    Ok(out)
}

/// The mathematical value of a predicate.
pub enum TestV {
    True,
    False,
    Header(Seq<u8>, Seq<u8>),
    Envelope(EnvelopePart, Seq<u8>),
    Duplicate,
}

/// The mathematical value of an instruction.
pub enum InstrV {
    If(TestV, Seq<InstrV>, Seq<InstrV>),
    FileInto(Seq<u8>),
    AddKeyword(Seq<u8>),
    Keep,
    Discard,
    Reject(Seq<u8>),
    Redirect(Seq<u8>),
    Notify(Seq<u8>, Seq<u8>),
    Include(Seq<u8>),
    Stop,
}

/// The mathematical value of a predicate node.
pub open spec fn test_view(t: Test) -> TestV {
    match t {
        Test::True => TestV::True,
        Test::False => TestV::False,
        Test::Header(a, b) => TestV::Header(a@, b@),
        Test::Envelope(p, a) => TestV::Envelope(p, a@),
        Test::Duplicate => TestV::Duplicate,
    }
}

/// The mathematical value of an instruction node.
pub open spec fn instr_view(i: Instr) -> InstrV
    decreases i, 0int,
{
    match i {
        Instr::If(t, tb, eb) => InstrV::If(
            test_view(t),
            block_view_from(tb@, 0),
            block_view_from(eb@, 0),
        ),
        Instr::FileInto(p) => InstrV::FileInto(p@),
        Instr::AddKeyword(k) => InstrV::AddKeyword(k@),
        Instr::Keep => InstrV::Keep,
        Instr::Discard => InstrV::Discard,
        Instr::Reject(r) => InstrV::Reject(r@),
        Instr::Redirect(a) => InstrV::Redirect(a@),
        Instr::Notify(t, m) => InstrV::Notify(t@, m@),
        Instr::Include(n) => InstrV::Include(n@),
        Instr::Stop => InstrV::Stop,
    }
}

/// The mathematical value of an instruction list, from `i` on.
pub open spec fn block_view_from(s: Seq<Instr>, i: int) -> Seq<InstrV>
    decreases s, s.len() - i + 1,
{
    if i < 0 || i >= s.len() {
        Seq::empty()
    } else {
        seq![instr_view(s[i])] + block_view_from(s, i + 1)
    }
}

/// The mathematical value of an instruction list.
pub open spec fn block_view(s: Seq<Instr>) -> Seq<InstrV> {
    block_view_from(s, 0)
}

proof fn lemma_bv_shift(a: Seq<Instr>, b: Seq<Instr>, j: int)
    requires
        0 <= j <= b.len(),
    ensures
        block_view_from(a + b, a.len() + j) == block_view_from(b, j),
    decreases b.len() - j,
{
    if j < b.len() {
        assert((a + b)[a.len() + j] == b[j]);
        lemma_bv_shift(a, b, j + 1);
    }
}

proof fn lemma_bv_concat_from(a: Seq<Instr>, b: Seq<Instr>, i: int)
    requires
        0 <= i <= a.len(),
    ensures
        block_view_from(a + b, i) == block_view_from(a, i) + block_view_from(b, 0),
    decreases a.len() - i,
{
    if i < a.len() {
        assert((a + b)[i] == a[i]);
        lemma_bv_concat_from(a, b, i + 1);
        assert(seq![instr_view(a[i])] + (block_view_from(a, i + 1) + block_view_from(b, 0)) =~= (
        seq![instr_view(a[i])] + block_view_from(a, i + 1)) + block_view_from(b, 0));
    } else {
        lemma_bv_shift(a, b, 0);
        assert(block_view_from(a, i) =~= Seq::<InstrV>::empty());
        assert(Seq::<InstrV>::empty() + block_view_from(b, 0) =~= block_view_from(b, 0));
    }
}

/// Instruction-list views concatenate.
pub proof fn lemma_bv_concat(a: Seq<Instr>, b: Seq<Instr>)
    ensures
        block_view(a + b) == block_view(a) + block_view(b),
{
    lemma_bv_concat_from(a, b, 0);
}

/// The view of a one-instruction list.
pub proof fn lemma_bv_single(x: Instr)
    ensures
        block_view(seq![x]) == seq![instr_view(x)],
{
    assert(block_view_from(seq![x], 1) =~= Seq::<InstrV>::empty());
    assert(seq![instr_view(x)] + Seq::<InstrV>::empty() =~= seq![instr_view(x)]);
}

/// A quoted argument and the closing semicolon: `STR ;` after position `i`.
pub open spec fn arg1(toks: Seq<TokV>, i: int) -> Result<Seq<u8>, CompileFault> {
    if i + 1 >= toks.len() {
        Result::Err(CompileFault::UnexpectedEnd)
    } else {
        match toks[i + 1] {
            TokV::Str(v) => if i + 2 >= toks.len() {
                Result::Err(CompileFault::UnexpectedEnd)
            } else {
                match toks[i + 2] {
                    TokV::Semi => Result::Ok(v),
                    _ => Result::Err(CompileFault::UnexpectedToken),
                }
            },
            _ => Result::Err(CompileFault::UnexpectedToken),
        }
    }
}

/// A bare semicolon after position `i`.
pub open spec fn arg0(toks: Seq<TokV>, i: int) -> Result<(), CompileFault> {
    if i + 1 >= toks.len() {
        Result::Err(CompileFault::UnexpectedEnd)
    } else {
        match toks[i + 1] {
            TokV::Semi => Result::Ok(()),
            _ => Result::Err(CompileFault::UnexpectedToken),
        }
    }
}

/// Two quoted arguments after position `i`: `STR STR`.
pub open spec fn str2(toks: Seq<TokV>, i: int) -> Result<(Seq<u8>, Seq<u8>), CompileFault> {
    if i + 1 >= toks.len() {
        Result::Err(CompileFault::UnexpectedEnd)
    } else {
        match toks[i + 1] {
            TokV::Str(a) => if i + 2 >= toks.len() {
                Result::Err(CompileFault::UnexpectedEnd)
            } else {
                match toks[i + 2] {
                    TokV::Str(b) => Result::Ok((a, b)),
                    _ => Result::Err(CompileFault::UnexpectedToken),
                }
            },
            _ => Result::Err(CompileFault::UnexpectedToken),
        }
    }
}

/// Two quoted arguments and the closing semicolon: `STR STR ;`.
pub open spec fn arg2(toks: Seq<TokV>, i: int) -> Result<(Seq<u8>, Seq<u8>), CompileFault> {
    match str2(toks, i) {
        Result::Err(f) => Result::Err(f),
        Result::Ok(ab) => if i + 3 >= toks.len() {
            Result::Err(CompileFault::UnexpectedEnd)
        } else {
            match toks[i + 3] {
                TokV::Semi => Result::Ok(ab),
                _ => Result::Err(CompileFault::UnexpectedToken),
            }
        },
    }
}

/// One predicate at position `i`: its value and the position after it.
pub open spec fn parse_test(toks: Seq<TokV>, i: int) -> Result<(TestV, int), CompileFault> {
    if i < 0 || i >= toks.len() {
        Result::Err(CompileFault::UnexpectedEnd)
    } else {
        match toks[i] {
            TokV::Ident(w) => if w == kw_true() {
                Result::Ok((TestV::True, i + 1))
            } else if w == kw_false() {
                Result::Ok((TestV::False, i + 1))
            } else if w == kw_duplicate() {
                Result::Ok((TestV::Duplicate, i + 1))
            } else if w == kw_header() {
                match str2(toks, i) {
                    Result::Err(f) => Result::Err(f),
                    Result::Ok(ab) => Result::Ok((TestV::Header(ab.0, ab.1), i + 3)),
                }
            } else if w == kw_envelope() {
                match str2(toks, i) {
                    Result::Err(f) => Result::Err(f),
                    Result::Ok(ab) => if ab.0 == kw_from() {
                        Result::Ok((TestV::Envelope(EnvelopePart::Sender, ab.1), i + 3))
                    } else if ab.0 == kw_to() {
                        Result::Ok((TestV::Envelope(EnvelopePart::Recipient, ab.1), i + 3))
                    } else {
                        Result::Err(CompileFault::UnexpectedToken)
                    },
                }
            } else {
                Result::Err(CompileFault::UnknownCommand)
            },
            _ => Result::Err(CompileFault::UnexpectedToken),
        }
    }
}

/// The head of an `if`/`elsif` arm at position `i`: the predicate, the
/// brace-enclosed body, the else arm that follows, and the position after
/// the whole construct.
pub open spec fn parse_if_rest(toks: Seq<TokV>, i: int, vis: Seq<Seq<u8>>) -> Result<
    (TestV, Seq<InstrV>, Seq<InstrV>, int),
    CompileFault,
>
    decreases toks.len() - i, 0int,
{
    match parse_test(toks, i) {
        Result::Err(f) => Result::Err(f),
        Result::Ok(tj) => {
            let t = tj.0;
            let j = tj.1;
            if !(i < j <= toks.len()) {
                Result::Err(CompileFault::UnexpectedToken)
            } else if j >= toks.len() {
                Result::Err(CompileFault::UnexpectedEnd)
            } else if !(toks[j] is LBrace) {
                Result::Err(CompileFault::UnexpectedToken)
            } else {
                match parse_cmds(toks, j + 1, vis) {
                    Result::Err(f) => Result::Err(f),
                    Result::Ok(bk) => {
                        let body = bk.0;
                        let k = bk.1;
                        if !(j < k <= toks.len()) {
                            Result::Err(CompileFault::UnexpectedToken)
                        } else if k >= toks.len() {
                            Result::Err(CompileFault::UnexpectedEnd)
                        } else if !(toks[k] is RBrace) {
                            Result::Err(CompileFault::UnexpectedToken)
                        } else {
                            match parse_if_tail(toks, k + 1, vis) {
                                Result::Err(f) => Result::Err(f),
                                Result::Ok(em) => {
                                    let els = em.0;
                                    let m = em.1;
                                    if i < m <= toks.len() {
                                        Result::Ok((t, body, els, m))
                                    } else {
                                        Result::Err(CompileFault::UnexpectedToken)
                                    }
                                },
                            }
                        }
                    },
                }
            }
        },
    }
}

/// One command at position `i`: the instructions it compiles to (none for
/// `require`) and the position after it.
pub open spec fn parse_cmd(toks: Seq<TokV>, i: int, vis: Seq<Seq<u8>>) -> Result<
    (Seq<InstrV>, int),
    CompileFault,
>
    decreases toks.len() - i, 1int,
{
    if i < 0 || i >= toks.len() {
        Result::Err(CompileFault::UnexpectedEnd)
    } else {
        match toks[i] {
            TokV::Ident(w) => if w == kw_require() {
                match arg1(toks, i) {
                    Result::Err(f) => Result::Err(f),
                    Result::Ok(c) => if supported_cap(c) {
                        Result::Ok((Seq::empty(), i + 3))
                    } else {
                        Result::Err(CompileFault::UnsupportedCapability)
                    },
                }
            } else if w == kw_fileinto() {
                match arg1(toks, i) {
                    Result::Err(f) => Result::Err(f),
                    Result::Ok(p) => if crate::mailbox::valid_path(p) {
                        Result::Ok((seq![InstrV::FileInto(p)], i + 3))
                    } else {
                        Result::Err(CompileFault::BadMailboxPath)
                    },
                }
            } else if w == kw_addflag() {
                match arg1(toks, i) {
                    Result::Err(f) => Result::Err(f),
                    Result::Ok(k) => Result::Ok((seq![InstrV::AddKeyword(k)], i + 3)),
                }
            } else if w == kw_keep() {
                match arg0(toks, i) {
                    Result::Err(f) => Result::Err(f),
                    Result::Ok(_) => Result::Ok((seq![InstrV::Keep], i + 2)),
                }
            } else if w == kw_discard() {
                match arg0(toks, i) {
                    Result::Err(f) => Result::Err(f),
                    Result::Ok(_) => Result::Ok((seq![InstrV::Discard], i + 2)),
                }
            } else if w == kw_stop() {
                match arg0(toks, i) {
                    Result::Err(f) => Result::Err(f),
                    Result::Ok(_) => Result::Ok((seq![InstrV::Stop], i + 2)),
                }
            } else if w == kw_reject() {
                match arg1(toks, i) {
                    Result::Err(f) => Result::Err(f),
                    Result::Ok(r) => Result::Ok((seq![InstrV::Reject(r)], i + 3)),
                }
            } else if w == kw_redirect() {
                match arg1(toks, i) {
                    Result::Err(f) => Result::Err(f),
                    Result::Ok(a) => Result::Ok((seq![InstrV::Redirect(a)], i + 3)),
                }
            } else if w == kw_notify() {
                match arg2(toks, i) {
                    Result::Err(f) => Result::Err(f),
                    Result::Ok(tm) => Result::Ok((seq![InstrV::Notify(tm.0, tm.1)], i + 4)),
                }
            } else if w == kw_include() {
                match arg1(toks, i) {
                    Result::Err(f) => Result::Err(f),
                    Result::Ok(n) => if vis.contains(n) {
                        Result::Ok((seq![InstrV::Include(n)], i + 3))
                    } else {
                        Result::Err(CompileFault::UnknownIncludeTarget)
                    },
                }
            } else if w == kw_if() {
                match parse_if_rest(toks, i + 1, vis) {
                    Result::Err(f) => Result::Err(f),
                    Result::Ok(r4) => Result::Ok((seq![InstrV::If(r4.0, r4.1, r4.2)], r4.3)),
                }
            } else {
                Result::Err(CompileFault::UnknownCommand)
            },
            _ => Result::Err(CompileFault::UnexpectedToken),
        }
    }
}

/// The `elsif`/`else` continuation of an `if`, starting at position `i`:
/// the instructions of the else arm and the position after the whole
/// construct.
pub open spec fn parse_if_tail(toks: Seq<TokV>, i: int, vis: Seq<Seq<u8>>) -> Result<
    (Seq<InstrV>, int),
    CompileFault,
>
    decreases toks.len() - i, 0int,
{
    if i < 0 || i >= toks.len() {
        Result::Ok((Seq::empty(), i))
    } else if toks[i] == TokV::Ident(kw_elsif()) {
        match parse_if_rest(toks, i + 1, vis) {
            Result::Err(f) => Result::Err(f),
            Result::Ok(r4) => Result::Ok((seq![InstrV::If(r4.0, r4.1, r4.2)], r4.3)),
        }
    } else if toks[i] == TokV::Ident(kw_else()) {
        if i + 1 >= toks.len() {
            Result::Err(CompileFault::UnexpectedEnd)
        } else if !(toks[i + 1] is LBrace) {
            Result::Err(CompileFault::UnexpectedToken)
        } else {
            match parse_cmds(toks, i + 2, vis) {
                Result::Err(f) => Result::Err(f),
                Result::Ok(bk) => {
                    let body = bk.0;
                    let k = bk.1;
                    if !(i + 1 < k <= toks.len()) {
                        Result::Err(CompileFault::UnexpectedToken)
                    } else if k >= toks.len() {
                        Result::Err(CompileFault::UnexpectedEnd)
                    } else if !(toks[k] is RBrace) {
                        Result::Err(CompileFault::UnexpectedToken)
                    } else {
                        Result::Ok((body, k + 1))
                    }
                },
            }
        }
    } else {
        Result::Ok((Seq::empty(), i))
    }
}

/// A run of commands from position `i` up to a closing brace or the end:
/// their instructions and the stopping position.
pub open spec fn parse_cmds(toks: Seq<TokV>, i: int, vis: Seq<Seq<u8>>) -> Result<
    (Seq<InstrV>, int),
    CompileFault,
>
    decreases toks.len() - i, 2int,
{
    if i < 0 || i >= toks.len() {
        Result::Ok((Seq::empty(), if i < 0 { 0 } else { i }))
    } else if toks[i] is RBrace {
        Result::Ok((Seq::empty(), i))
    } else {
        match parse_cmd(toks, i, vis) {
            Result::Err(f) => Result::Err(f),
            Result::Ok(ij) => {
                let is1 = ij.0;
                let j = ij.1;
                if i < j <= toks.len() {
                    match parse_cmds(toks, j, vis) {
                        Result::Err(f) => Result::Err(f),
                        Result::Ok(sk) => Result::Ok((is1 + sk.0, sk.1)),
                    }
                } else {
                    Result::Err(CompileFault::UnexpectedToken)
                }
            },
        }
    }
}

fn at_rbrace(toks: &Vec<Tok>, i: usize) -> (r: bool)
    ensures
        r == (i < toks@.len() && toks_view(toks@)[i as int] is RBrace),
{
    if i < toks.len() {
        let b = match &toks[i] {
            Tok::RBrace => true,
            _ => false,
        };
        proof {
            assert(toks_view(toks@)[i as int] == toks@[i as int]@);
        }
        b
    } else {
        false
    }
}

fn arg1_exec(toks: &Vec<Tok>, i: usize) -> (r: Result<Vec<u8>, CompileFault>)
    requires
        i < toks@.len(),
    ensures
        match r {
            Result::Ok(v) => arg1(toks_view(toks@), i as int) == Result::<Seq<u8>, CompileFault>::Ok(
                v@,
            ) && i + 2 < toks@.len(),
            Result::Err(f) => arg1(toks_view(toks@), i as int) == Result::<
                Seq<u8>,
                CompileFault,
            >::Err(f),
        },
{
    let rem = toks.len() - i;
    if rem < 2 {
        return Err(CompileFault::UnexpectedEnd);
    }
    proof {
        assert(toks_view(toks@)[i as int + 1] == toks@[i as int + 1]@);
    }
    match &toks[i + 1] {
        Tok::Str(v) => {
            if rem < 3 {
                return Err(CompileFault::UnexpectedEnd);
            }
            proof {
                assert(toks_view(toks@)[i as int + 2] == toks@[i as int + 2]@);
            }
            match &toks[i + 2] {
                Tok::Semi => Ok(copy_bytes(v)),
                _ => Err(CompileFault::UnexpectedToken),
            }
        },
        _ => Err(CompileFault::UnexpectedToken),
    }
}

fn arg0_exec(toks: &Vec<Tok>, i: usize) -> (r: Result<(), CompileFault>)
    requires
        i < toks@.len(),
    ensures
        match r {
            Result::Ok(()) => arg0(toks_view(toks@), i as int) == Result::<(), CompileFault>::Ok(())
                && i + 1 < toks@.len(),
            Result::Err(f) => arg0(toks_view(toks@), i as int) == Result::<(), CompileFault>::Err(
                f,
            ),
        },
{
    let rem = toks.len() - i;
    if rem < 2 {
        return Err(CompileFault::UnexpectedEnd);
    }
    proof {
        assert(toks_view(toks@)[i as int + 1] == toks@[i as int + 1]@);
    }
    match &toks[i + 1] {
        Tok::Semi => Ok(()),
        _ => Err(CompileFault::UnexpectedToken),
    }
}

fn str2_exec(toks: &Vec<Tok>, i: usize) -> (r: Result<(Vec<u8>, Vec<u8>), CompileFault>)
    requires
        i < toks@.len(),
    ensures
        match r {
            Result::Ok(ab) => str2(toks_view(toks@), i as int) == Result::<
                (Seq<u8>, Seq<u8>),
                CompileFault,
            >::Ok((ab.0@, ab.1@)) && i + 2 < toks@.len(),
            Result::Err(f) => str2(toks_view(toks@), i as int) == Result::<
                (Seq<u8>, Seq<u8>),
                CompileFault,
            >::Err(f),
        },
{
    let rem = toks.len() - i;
    if rem < 2 {
        return Err(CompileFault::UnexpectedEnd);
    }
    proof {
        assert(toks_view(toks@)[i as int + 1] == toks@[i as int + 1]@);
    }
    match &toks[i + 1] {
        Tok::Str(a) => {
            if rem < 3 {
                return Err(CompileFault::UnexpectedEnd);
            }
            proof {
                assert(toks_view(toks@)[i as int + 2] == toks@[i as int + 2]@);
            }
            match &toks[i + 2] {
                Tok::Str(b) => Ok((copy_bytes(a), copy_bytes(b))),
                _ => Err(CompileFault::UnexpectedToken),
            }
        },
        _ => Err(CompileFault::UnexpectedToken),
    }
}

fn arg2_exec(toks: &Vec<Tok>, i: usize) -> (r: Result<(Vec<u8>, Vec<u8>), CompileFault>)
    requires
        i < toks@.len(),
    ensures
        match r {
            Result::Ok(ab) => arg2(toks_view(toks@), i as int) == Result::<
                (Seq<u8>, Seq<u8>),
                CompileFault,
            >::Ok((ab.0@, ab.1@)) && i + 3 < toks@.len(),
            Result::Err(f) => arg2(toks_view(toks@), i as int) == Result::<
                (Seq<u8>, Seq<u8>),
                CompileFault,
            >::Err(f),
        },
{
    match str2_exec(toks, i) {
        Err(f) => Err(f),
        Ok(ab) => {
            let rem = toks.len() - i;
            if rem < 4 {
                return Err(CompileFault::UnexpectedEnd);
            }
            proof {
                assert(toks_view(toks@)[i as int + 3] == toks@[i as int + 3]@);
            }
            match &toks[i + 3] {
                Tok::Semi => Ok(ab),
                _ => Err(CompileFault::UnexpectedToken),
            }
        },
    }
}

fn check_path(p: &Vec<u8>) -> (r: bool)
    ensures
        r == crate::mailbox::valid_path(p@),
{
    if p.len() == 0 {
        return false;
    }
    if p[0] == 47 {
        return false;
    }
    if p[p.len() - 1] == 47 {
        return false;
    }
    let mut k: usize = 1;
    while k < p.len()
        invariant
            1 <= k <= p@.len(),
            p@.len() > 0,
            p@[0] != 47,
            p@[p@.len() - 1] != 47,
            forall|t: int| 0 < t < k ==> !(p@[t - 1] == 47 && #[trigger] p@[t] == 47),
        decreases p@.len() - k,
    {
        if p[k - 1] == 47 && p[k] == 47 {
            assert(!crate::mailbox::valid_path(p@));
            return false;
        }
        k += 1;
    }
    true
}

fn parse_test_exec(toks: &Vec<Tok>, i: usize) -> (r: Result<(Test, usize), CompileFault>)
    requires
        i <= toks@.len(),
    ensures
        match r {
            Result::Ok(tj) => i < tj.1 <= toks@.len() && parse_test(toks_view(toks@), i as int)
                == Result::<(TestV, int), CompileFault>::Ok((test_view(tj.0), tj.1 as int)),
            Result::Err(f) => parse_test(toks_view(toks@), i as int) == Result::<
                (TestV, int),
                CompileFault,
            >::Err(f),
        },
{
    if i >= toks.len() {
        return Err(CompileFault::UnexpectedEnd);
    }
    proof {
        assert(toks_view(toks@)[i as int] == toks@[i as int]@);
    }
    match &toks[i] {
        Tok::Ident(w) => {
            if is_true(w) {
                Ok((Test::True, i + 1))
            } else if is_false(w) {
                Ok((Test::False, i + 1))
            } else if is_duplicate(w) {
                Ok((Test::Duplicate, i + 1))
            } else if is_header(w) {
                match str2_exec(toks, i) {
                    Err(f) => Err(f),
                    Ok(ab) => Ok((Test::Header(ab.0, ab.1), i + 3)),
                }
            } else if is_envelope(w) {
                match str2_exec(toks, i) {
                    Err(f) => Err(f),
                    Ok(ab) => {
                        if is_from(&ab.0) {
                            Ok((Test::Envelope(EnvelopePart::Sender, ab.1), i + 3))
                        } else if is_to(&ab.0) {
                            Ok((Test::Envelope(EnvelopePart::Recipient, ab.1), i + 3))
                        } else {
                            Err(CompileFault::UnexpectedToken)
                        }
                    },
                }
            } else {
                Err(CompileFault::UnknownCommand)
            }
        },
        _ => Err(CompileFault::UnexpectedToken),
    }
}

fn single(instr: Instr) -> (v: Vec<Instr>)
    ensures
        block_view(v@) == seq![instr_view(instr)],
{
    let mut v: Vec<Instr> = Vec::new();
    v.push(instr);
    proof {
        assert(v@ =~= seq![v@[0]]);
        lemma_bv_single(v@[0]);
    }
    v
}

fn parse_if_rest_exec(toks: &Vec<Tok>, i: usize, visible: &Vec<Vec<u8>>) -> (r: Result<
    (Test, Vec<Instr>, Vec<Instr>, usize),
    CompileFault,
>)
    requires
        i <= toks@.len(),
    ensures
        match r {
            Result::Ok(r4) => i < r4.3 <= toks@.len() && parse_if_rest(
                toks_view(toks@),
                i as int,
                deep_view(visible@),
            ) == Result::<(TestV, Seq<InstrV>, Seq<InstrV>, int), CompileFault>::Ok(
                (test_view(r4.0), block_view(r4.1@), block_view(r4.2@), r4.3 as int),
            ),
            Result::Err(f) => parse_if_rest(toks_view(toks@), i as int, deep_view(visible@))
                == Result::<(TestV, Seq<InstrV>, Seq<InstrV>, int), CompileFault>::Err(f),
        },
    decreases toks@.len() - i, 0int,
{
    match parse_test_exec(toks, i) {
        Err(f) => Err(f),
        Ok(tj) => {
            let t = tj.0;
            let j = tj.1;
            if j >= toks.len() {
                return Err(CompileFault::UnexpectedEnd);
            }
            proof {
                assert(toks_view(toks@)[j as int] == toks@[j as int]@);
            }
            let lb = match &toks[j] {
                Tok::LBrace => true,
                _ => false,
            };
            if !lb {
                return Err(CompileFault::UnexpectedToken);
            }
            match parse_cmds_exec(toks, j + 1, visible) {
                Err(f) => Err(f),
                Ok(bk) => {
                    let body = bk.0;
                    let k = bk.1;
                    if k >= toks.len() {
                        return Err(CompileFault::UnexpectedEnd);
                    }
                    proof {
                        assert(toks_view(toks@)[k as int] == toks@[k as int]@);
                    }
                    let rb = match &toks[k] {
                        Tok::RBrace => true,
                        _ => false,
                    };
                    if !rb {
                        return Err(CompileFault::UnexpectedToken);
                    }
                    match parse_if_tail_exec(toks, k + 1, visible) {
                        Err(f) => Err(f),
                        Ok(em) => Ok((t, body, em.0, em.1)),
                    }
                },
            }
        },
    }
}

#[verifier::rlimit(100)]
#[verifier::spinoff_prover]
fn parse_cmd_exec(toks: &Vec<Tok>, i: usize, visible: &Vec<Vec<u8>>) -> (r: Result<
    (Vec<Instr>, usize),
    CompileFault,
>)
    requires
        i <= toks@.len(),
    ensures
        match r {
            Result::Ok(ij) => i < ij.1 <= toks@.len() && parse_cmd(
                toks_view(toks@),
                i as int,
                deep_view(visible@),
            ) == Result::<(Seq<InstrV>, int), CompileFault>::Ok((block_view(ij.0@), ij.1 as int)),
            Result::Err(f) => parse_cmd(toks_view(toks@), i as int, deep_view(visible@))
                == Result::<(Seq<InstrV>, int), CompileFault>::Err(f),
        },
    decreases toks@.len() - i, 1int,
{
    if i >= toks.len() {
        return Err(CompileFault::UnexpectedEnd);
    }
    proof {
        assert(toks_view(toks@)[i as int] == toks@[i as int]@);
    }
    match &toks[i] {
        Tok::Ident(w) => {
            if is_require(w) {
                match arg1_exec(toks, i) {
                    Err(f) => Err(f),
                    Ok(c) => {
                        if check_cap(&c) {
                            let ins: Vec<Instr> = Vec::new();
                            proof {
                                assert(block_view(ins@) =~= Seq::<InstrV>::empty());
                            }
                            Ok((ins, i + 3))
                        } else {
                            Err(CompileFault::UnsupportedCapability)
                        }
                    },
                }
            } else if is_fileinto(w) {
                match arg1_exec(toks, i) {
                    Err(f) => Err(f),
                    Ok(p) => {
                        if check_path(&p) {
                            Ok((single(Instr::FileInto(p)), i + 3))
                        } else {
                            Err(CompileFault::BadMailboxPath)
                        }
                    },
                }
            } else if is_addflag(w) {
                match arg1_exec(toks, i) {
                    Err(f) => Err(f),
                    Ok(k) => Ok((single(Instr::AddKeyword(k)), i + 3)),
                }
            } else if is_keep(w) {
                match arg0_exec(toks, i) {
                    Err(f) => Err(f),
                    Ok(()) => Ok((single(Instr::Keep), i + 2)),
                }
            } else if is_discard(w) {
                match arg0_exec(toks, i) {
                    Err(f) => Err(f),
                    Ok(()) => Ok((single(Instr::Discard), i + 2)),
                }
            } else if is_stop(w) {
                match arg0_exec(toks, i) {
                    Err(f) => Err(f),
                    Ok(()) => Ok((single(Instr::Stop), i + 2)),
                }
            } else if is_reject(w) {
                match arg1_exec(toks, i) {
                    Err(f) => Err(f),
                    Ok(rr) => Ok((single(Instr::Reject(rr)), i + 3)),
                }
            } else if is_redirect(w) {
                match arg1_exec(toks, i) {
                    Err(f) => Err(f),
                    Ok(a) => Ok((single(Instr::Redirect(a)), i + 3)),
                }
            } else if is_notify(w) {
                match arg2_exec(toks, i) {
                    Err(f) => Err(f),
                    Ok(tm) => Ok((single(Instr::Notify(tm.0, tm.1)), i + 4)),
                }
            } else if is_include(w) {
                match arg1_exec(toks, i) {
                    Err(f) => Err(f),
                    Ok(n) => {
                        if crate::pipeline::contains_bytes(visible, &n) {
                            Ok((single(Instr::Include(n)), i + 3))
                        } else {
                            Err(CompileFault::UnknownIncludeTarget)
                        }
                    },
                }
            } else if is_if(w) {
                match parse_if_rest_exec(toks, i + 1, visible) {
                    Err(f) => Err(f),
                    Ok(r4) => Ok((single(Instr::If(r4.0, r4.1, r4.2)), r4.3)),
                }
            } else {
                Err(CompileFault::UnknownCommand)
            }
        },
        _ => Err(CompileFault::UnexpectedToken),
    }
}

fn parse_if_tail_exec(toks: &Vec<Tok>, i: usize, visible: &Vec<Vec<u8>>) -> (r: Result<
    (Vec<Instr>, usize),
    CompileFault,
>)
    requires
        i <= toks@.len(),
    ensures
        match r {
            Result::Ok(em) => i <= em.1 <= toks@.len() && parse_if_tail(
                toks_view(toks@),
                i as int,
                deep_view(visible@),
            ) == Result::<(Seq<InstrV>, int), CompileFault>::Ok((block_view(em.0@), em.1 as int)),
            Result::Err(f) => parse_if_tail(toks_view(toks@), i as int, deep_view(visible@))
                == Result::<(Seq<InstrV>, int), CompileFault>::Err(f),
        },
    decreases toks@.len() - i, 0int,
{
    if i >= toks.len() {
        let ins: Vec<Instr> = Vec::new();
        proof {
            assert(block_view(ins@) =~= Seq::<InstrV>::empty());
        }
        return Ok((ins, i));
    }
    proof {
        assert(toks_view(toks@)[i as int] == toks@[i as int]@);
    }
    let kind: u8 = match &toks[i] {
        Tok::Ident(w) => {
            if is_elsif(w) {
                1
            } else if is_else(w) {
                2
            } else {
                0
            }
        },
        _ => 0,
    };
    if kind == 1 {
        assert(toks_view(toks@)[i as int] == TokV::Ident(kw_elsif()));
        match parse_if_rest_exec(toks, i + 1, visible) {
            Err(f) => Err(f),
            Ok(r4) => Ok((single(Instr::If(r4.0, r4.1, r4.2)), r4.3)),
        }
    } else if kind == 2 {
        assert(toks_view(toks@)[i as int] == TokV::Ident(kw_else()));
        assert(!(toks_view(toks@)[i as int] == TokV::Ident(kw_elsif())));
        let rem = toks.len() - i;
        if rem < 2 {
            return Err(CompileFault::UnexpectedEnd);
        }
        proof {
            assert(toks_view(toks@)[i as int + 1] == toks@[i as int + 1]@);
        }
        let lb = match &toks[i + 1] {
            Tok::LBrace => true,
            _ => false,
        };
        if !lb {
            return Err(CompileFault::UnexpectedToken);
        }
        match parse_cmds_exec(toks, i + 2, visible) {
            Err(f) => Err(f),
            Ok(bk) => {
                let body = bk.0;
                let k = bk.1;
                if k >= toks.len() {
                    return Err(CompileFault::UnexpectedEnd);
                }
                proof {
                    assert(toks_view(toks@)[k as int] == toks@[k as int]@);
                }
                let rb = match &toks[k] {
                    Tok::RBrace => true,
                    _ => false,
                };
                if !rb {
                    return Err(CompileFault::UnexpectedToken);
                }
                Ok((body, k + 1))
            },
        }
    } else {
        proof {
            assert(!(toks_view(toks@)[i as int] == TokV::Ident(kw_elsif())));
            assert(!(toks_view(toks@)[i as int] == TokV::Ident(kw_else())));
        }
        let ins: Vec<Instr> = Vec::new();
        proof {
            assert(block_view(ins@) =~= Seq::<InstrV>::empty());
        }
        Ok((ins, i))
    }
}

/// Puts already-parsed instructions in front of a parsing result.
pub open spec fn cmds_prepend(pre: Seq<InstrV>, r: Result<(Seq<InstrV>, int), CompileFault>)
    -> Result<(Seq<InstrV>, int), CompileFault> {
    match r {
        Result::Ok(sk) => Result::Ok((pre + sk.0, sk.1)),
        Result::Err(f) => Result::Err(f),
    }
}

fn parse_cmds_exec(toks: &Vec<Tok>, start: usize, visible: &Vec<Vec<u8>>) -> (r: Result<
    (Vec<Instr>, usize),
    CompileFault,
>)
    requires
        start <= toks@.len(),
    ensures
        match r {
            Result::Ok(sk) => start <= sk.1 <= toks@.len() && parse_cmds(
                toks_view(toks@),
                start as int,
                deep_view(visible@),
            ) == Result::<(Seq<InstrV>, int), CompileFault>::Ok((block_view(sk.0@), sk.1 as int)),
            Result::Err(f) => parse_cmds(toks_view(toks@), start as int, deep_view(visible@))
                == Result::<(Seq<InstrV>, int), CompileFault>::Err(f),
        },
    decreases toks@.len() - start, 2int,
{
    let ghost tv = toks_view(toks@);
    let ghost vis = deep_view(visible@);
    let n = toks.len();
    let mut out: Vec<Instr> = Vec::new();
    let mut i: usize = start;
    let mut done = false;
    while !done
        invariant
            start <= i <= n,
            n == toks@.len(),
            tv == toks_view(toks@),
            vis == deep_view(visible@),
            done ==> (i == n || tv[i as int] is RBrace),
            parse_cmds(tv, start as int, vis) == cmds_prepend(
                block_view(out@),
                parse_cmds(tv, i as int, vis),
            ),
        decreases n - i, (if done { 0int } else { 1int }),
    {
        if i >= n {
            done = true;
        } else if at_rbrace(toks, i) {
            done = true;
        } else {
            let ghost out_pre = out@;
            match parse_cmd_exec(toks, i, visible) {
                Err(f) => {
                    proof {
                        assert(parse_cmds(tv, i as int, vis) == Result::<
                            (Seq<InstrV>, int),
                            CompileFault,
                        >::Err(f));
                    }
                    return Err(f);
                },
                Ok(ij) => {
                    let mut ins = ij.0;
                    let j = ij.1;
                    let ghost is1 = block_view(ins@);
                    proof {
                        let ghost rest = parse_cmds(tv, j as int, vis);
                        assert(parse_cmds(tv, i as int, vis) == (match rest {
                            Result::Ok(sk) => Result::<(Seq<InstrV>, int), CompileFault>::Ok(
                                (is1 + sk.0, sk.1),
                            ),
                            Result::Err(f) => Result::Err(f),
                        }));
                        lemma_bv_concat(out@, ins@);
                        match rest {
                            Result::Ok(sk) => {
                                assert((block_view(out@) + is1) + sk.0 =~= block_view(out@) + (is1
                                    + sk.0));
                            },
                            Result::Err(_) => {},
                        }
                    }
                    let ghost combined = out@ + ins@;
                    out.append(&mut ins);
                    proof {
                        assert(out@ == combined);
                    }
                    i = j;
                },
            }
        }
    }
    proof {
        assert(parse_cmds(tv, i as int, vis) == Result::<(Seq<InstrV>, int), CompileFault>::Ok(
            (Seq::empty(), i as int),
        ));
        assert(block_view(out@) + Seq::<InstrV>::empty() =~= block_view(out@));
    }
    Ok((out, i))
}

/// What compiling a source against a set of visible script names yields:
/// the instructions' mathematical value, or the first fault.
pub open spec fn spec_compile(src: Seq<u8>, vis: Seq<Seq<u8>>) -> Result<Seq<InstrV>, CompileFault> {
    match lex_from(src, 0) {
        Result::Err(f) => Result::Err(f),
        Result::Ok(ts) => match parse_cmds(ts, 0, vis) {
            Result::Err(f) => Result::Err(f),
            Result::Ok(ij) => if ij.1 == ts.len() {
                Result::Ok(ij.0)
            } else {
                Result::Err(CompileFault::UnexpectedToken)
            },
        },
    }
}

/// Compiles raw script source into a validated, executable script, or
/// rejects it with the fault [`spec_compile`] names.  `visible` holds the
/// names of the account's scripts, which `include` targets must be among.
/// Pure: no shared state is read or written.
pub fn compile(source: &Vec<u8>, visible: &Vec<Vec<u8>>) -> (r: Result<CompiledScript, CompileFault>)
    ensures
        match r {
            Result::Ok(c) => spec_compile(source@, deep_view(visible@)) == Result::<
                Seq<InstrV>,
                CompileFault,
            >::Ok(block_view(c.instrs@)),
            Result::Err(f) => spec_compile(source@, deep_view(visible@)) == Result::<
                Seq<InstrV>,
                CompileFault,
            >::Err(f),
        },
{
    match lex(source) {
        Err(f) => Err(f),
        Ok(toks) => {
            match parse_cmds_exec(&toks, 0, visible) {
                Err(f) => Err(f),
                Ok(ij) => {
                    let ins = ij.0;
                    let j = ij.1;
                    if j == toks.len() {
                        Ok(CompiledScript { instrs: ins })
                    } else {
                        Err(CompileFault::UnexpectedToken)
                    }
                },
            }
        },
    }
}

} // verus!
