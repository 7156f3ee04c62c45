//! Flat token sequences and the small operations on them that the parser and
//! the generator share.

use vstd::prelude::*;

verus! {

/// The delimiter of a token group.
#[derive(Clone, Copy, Debug, PartialEq, Eq, Structural)]
pub enum Delim {
    Paren,
    Bracket,
    Brace,
    /// A group without visible delimiters.
    Invisible,
}

/// One token. A delimited group is written as `Open`, its contents, `Close`.
#[derive(Clone, Debug, PartialEq, Eq)]
pub enum Tok {
    Ident(String),
    /// A punctuation character, and whether it is joined to the next one.
    Punct(char, bool),
    /// A literal, as its source text (a string literal keeps its quotes).
    Lit(String),
    Open(Delim),
    Close(Delim),
}

/// What a token is, with its text as a sequence of characters.
pub enum TokV {
    Ident(Seq<char>),
    Punct(char, bool),
    Lit(Seq<char>),
    Open(Delim),
    Close(Delim),
}

impl View for Tok {
    type V = TokV;

    open spec fn view(&self) -> TokV {
        match self {
            Tok::Ident(s) => TokV::Ident(s@),
            Tok::Punct(c, j) => TokV::Punct(*c, *j),
            Tok::Lit(s) => TokV::Lit(s@),
            Tok::Open(d) => TokV::Open(*d),
            Tok::Close(d) => TokV::Close(*d),
        }
    }
}

/// The view of each token of a sequence.
pub open spec fn toks_view(s: Seq<Tok>) -> Seq<TokV> {
    s.map_values(|t: Tok| t@)
}

pub proof fn lemma_toks_view_push(s: Seq<Tok>, t: Tok)
    ensures
        toks_view(s.push(t)) == toks_view(s).push(t@),
{
    assert(toks_view(s.push(t)) =~= toks_view(s).push(t@));
}

/// The view of each fragment of a sequence of token fragments.
pub open spec fn frags_view(s: Seq<Vec<Tok>>) -> Seq<Seq<TokV>> {
    s.map_values(|f: Vec<Tok>| toks_view(f@))
}

pub open spec fn is_ident(t: TokV, w: Seq<char>) -> bool {
    t == TokV::Ident(w)
}

pub open spec fn is_punct(t: TokV, c: char) -> bool {
    t matches TokV::Punct(d, _) && d == c
}

/// Scans for the `Close` that ends the group whose contents start at `k`, with
/// `depth` groups opened since; `None` where the sequence ends first.
pub open spec fn scan_close(s: Seq<TokV>, k: int, depth: nat) -> Option<int>
    decreases s.len() - k,
{
    if k < 0 || k >= s.len() {
        None
    } else {
        match s[k] {
            TokV::Open(_) => scan_close(s, k + 1, depth + 1),
            TokV::Close(_) => if depth == 0 {
                Some(k)
            } else {
                scan_close(s, k + 1, (depth - 1) as nat)
            },
            _ => scan_close(s, k + 1, depth),
        }
    }
}

/// The index of the `Close` that matches the `Open` at `i`.
pub open spec fn close_of(s: Seq<TokV>, i: int) -> Option<int> {
    scan_close(s, i + 1, 0)
}

pub proof fn lemma_scan_close_after(s: Seq<TokV>, k: int, depth: nat)
    ensures
        scan_close(s, k, depth) matches Some(j) ==> k <= j < s.len() && s[j] is Close,
    decreases s.len() - k,
{
    if 0 <= k < s.len() {
        match s[k] {
            TokV::Open(_) => lemma_scan_close_after(s, k + 1, depth + 1),
            TokV::Close(_) => if depth != 0 {
                lemma_scan_close_after(s, k + 1, (depth - 1) as nat);
            },
            _ => lemma_scan_close_after(s, k + 1, depth),
        }
    }
}

/// Deep copy of a token.
pub fn copy_tok(t: &Tok) -> (r: Tok)
    ensures
        r@ == t@,
{
    match t {
        Tok::Ident(s) => Tok::Ident(s.clone()),
        Tok::Punct(c, j) => Tok::Punct(*c, *j),
        Tok::Lit(s) => Tok::Lit(s.clone()),
        Tok::Open(d) => Tok::Open(*d),
        Tok::Close(d) => Tok::Close(*d),
    }
}

/// Appends copies of `src[lo..hi]` to `out`.
pub fn push_range(out: &mut Vec<Tok>, src: &Vec<Tok>, lo: usize, hi: usize)
    requires
        lo <= hi <= src.len(),
    ensures
        toks_view(final(out)@) == toks_view(old(out)@) + toks_view(src@).subrange(
            lo as int,
            hi as int,
        ),
{
    let mut k = lo;
    while k < hi
        invariant
            lo <= k <= hi <= src.len(),
            toks_view(out@) == toks_view(old(out)@) + toks_view(src@).subrange(lo as int, k as int),
        decreases hi - k,
    {
        let t = copy_tok(&src[k]);
        let ghost old_out = out@;
        out.push(t);
        proof {
            lemma_toks_view_push(old_out, t);
            assert(toks_view(src@).subrange(lo as int, k + 1) =~= toks_view(src@).subrange(
                lo as int,
                k as int,
            ).push(t@));
            assert(toks_view(out@) =~= toks_view(old(out)@) + toks_view(src@).subrange(
                lo as int,
                k + 1,
            ));
        }
        k = k + 1;
    }
}

/// Copies `src[lo..hi]` into a new vector.
pub fn copy_range(src: &Vec<Tok>, lo: usize, hi: usize) -> (r: Vec<Tok>)
    requires
        lo <= hi <= src.len(),
    ensures
        toks_view(r@) == toks_view(src@).subrange(lo as int, hi as int),
{
    let mut r: Vec<Tok> = Vec::new();
    push_range(&mut r, src, lo, hi);
    proof {
        assert(toks_view(r@) =~= toks_view(Seq::<Tok>::empty()) + toks_view(src@).subrange(
            lo as int,
            hi as int,
        ));
    }
    r
}

/// Whether a text equals a word.
pub fn text_is(s: &String, w: &str) -> (r: bool)
    ensures
        r == (s@ == w@),
{
    let t = w.to_owned();
    *s == t
}

/// Index of the `Close` matching the `Open` at `i`, found by counting depth.
pub fn find_close(s: &Vec<Tok>, i: usize) -> (r: Option<usize>)
    requires
        i < s.len(),
    ensures
        r matches Some(j) ==> close_of(toks_view(s@), i as int) == Some(j as int),
        r is None ==> close_of(toks_view(s@), i as int) is None,
{
    let ghost v = toks_view(s@);
    let mut k = i + 1;
    let mut depth: usize = 0;
    while k < s.len()
        invariant
            i < k <= s.len(),
            depth <= k,
            v == toks_view(s@),
            close_of(v, i as int) == scan_close(v, k as int, depth as nat),
        decreases s.len() - k,
    {
        match &s[k] {
            Tok::Open(_) => {
                depth = depth + 1;
            },
            Tok::Close(_) => {
                if depth == 0 {
                    return Some(k);
                }
                depth = depth - 1;
            },
            _ => {},
        }
        k = k + 1;
    }
    None
}

} // verus!
