//! The shape of text the addon writes to its saved-variables file: Lua
//! assignments of literal values. Only such text is handed to the interpreter,
//! because it can neither loop nor call anything, so running it ends.
use vstd::prelude::*;
use vstd::string::StringSliceAdditionalSpecFns;

verus! {

/// The Lua keywords that start or shape control flow or functions. `true`,
/// `false`, `nil`, `and`, `or` and `not` stay allowed.
pub open spec fn is_keyword(w: Seq<u8>) -> bool {
    w == "break".spec_bytes() ||
    w == "do".spec_bytes() ||
    w == "else".spec_bytes() ||
    w == "elseif".spec_bytes() ||
    w == "end".spec_bytes() ||
    w == "for".spec_bytes() ||
    w == "function".spec_bytes() ||
    w == "goto".spec_bytes() ||
    w == "if".spec_bytes() ||
    w == "in".spec_bytes() ||
    w == "local".spec_bytes() ||
    w == "repeat".spec_bytes() ||
    w == "return".spec_bytes() ||
    w == "then".spec_bytes() ||
    w == "until".spec_bytes() ||
    w == "while".spec_bytes()
}

/// Where a scan of the text stands after some bytes.
pub enum Lex {
    /// Between tokens; `after` when the last token was a name or a `]`, after
    /// which a string or a `{` would make a call.
    Code { after: bool },
    /// After one `-`.
    Dash { after: bool },
    /// Right after `--`.
    CommentStart { after: bool },
    /// Inside a `--` comment, up to the end of the line.
    Comment { after: bool },
    /// After `[`.
    Bracket,
    /// Inside a name that began at `start`.
    Word { start: usize },
    /// Inside a numeral.
    Num,
    /// Inside a string opened by `quote`.
    Str { quote: u8 },
    /// After a backslash inside a string.
    Esc { quote: u8 },
    /// The text is not of the accepted shape.
    Rejected,
}

pub open spec fn is_letter(c: u8) -> bool {
    (65 <= c <= 90) || (97 <= c <= 122) || c == 95
}

pub open spec fn is_digit(c: u8) -> bool {
    48 <= c <= 57
}

pub open spec fn is_space(c: u8) -> bool {
    c == 32 || c == 9 || c == 10 || c == 13
}

/// The state after the code byte `c` at `i`, where `after` tells whether a
/// name or `]` came just before. Parentheses and `:` are refused (they make
/// calls), and so are a string or `{` right after a name or `]`.
pub open spec fn code_byte(c: u8, i: int, after: bool) -> Lex {
    if c == 45 {
        Lex::Dash { after }
    } else if c == 34 || c == 39 {
        if after { Lex::Rejected } else { Lex::Str { quote: c } }
    } else if c == 123 {
        if after { Lex::Rejected } else { Lex::Code { after: false } }
    } else if c == 40 || c == 41 || c == 58 {
        Lex::Rejected
    } else if c == 91 {
        Lex::Bracket
    } else if c == 93 {
        Lex::Code { after: true }
    } else if is_letter(c) {
        Lex::Word { start: i as usize }
    } else if is_digit(c) {
        Lex::Num
    } else if is_space(c) {
        Lex::Code { after }
    } else {
        Lex::Code { after: false }
    }
}

/// One step of the scan: the state after byte `b[i]`.
pub open spec fn step(st: Lex, b: Seq<u8>, i: int) -> Lex {
    let c = b[i];
    match st {
        Lex::Code { after } => code_byte(c, i, after),
        Lex::Dash { after } => if c == 45 {
            Lex::CommentStart { after }
        } else {
            code_byte(c, i, false)
        },
        Lex::CommentStart { after } => if c == 91 {
            Lex::Rejected
        } else if c == 10 {
            Lex::Code { after }
        } else {
            Lex::Comment { after }
        },
        Lex::Comment { after } => if c == 10 {
            Lex::Code { after }
        } else {
            Lex::Comment { after }
        },
        Lex::Bracket => if c == 91 || c == 61 {
            Lex::Rejected
        } else {
            code_byte(c, i, false)
        },
        Lex::Word { start } => if is_letter(c) || is_digit(c) {
            Lex::Word { start }
        } else if is_keyword(b.subrange(start as int, i)) {
            Lex::Rejected
        } else {
            code_byte(c, i, true)
        },
        Lex::Num => if is_letter(c) || is_digit(c) || c == 46 {
            Lex::Num
        } else {
            code_byte(c, i, false)
        },
        Lex::Str { quote } => if c == 92 {
            Lex::Esc { quote }
        } else if c == quote {
            Lex::Code { after: false }
        } else {
            Lex::Str { quote }
        },
        Lex::Esc { quote } => Lex::Str { quote },
        Lex::Rejected => Lex::Rejected,
    }
}

/// The state after the first `n` bytes of `b`.
pub open spec fn lex(b: Seq<u8>, n: int) -> Lex
    decreases n,
{
    if n <= 0 {
        Lex::Code { after: false }
    } else {
        step(lex(b, n - 1), b, n - 1)
    }
}

/// `b` is a data script: scanned to its end without refusal, no string left
/// open, and no keyword as its last name. Such text holds no loop, no
/// function, no call and no long bracket.
pub open spec fn is_data_script(b: Seq<u8>) -> bool {
    match lex(b, b.len() as int) {
        Lex::Rejected => false,
        Lex::Str { .. } => false,
        Lex::Esc { .. } => false,
        Lex::Word { start } => !is_keyword(b.subrange(start as int, b.len() as int)),
        _ => true,
    }
}

fn same_bytes(b: &[u8], s: usize, e: usize, k: &[u8]) -> (r: bool)
    requires
        s <= e <= b@.len(),
    ensures
        r == (b@.subrange(s as int, e as int) == k@),
{
    if e - s != k.len() {
        return false;
    }
    let mut i: usize = 0;
    while i < k.len()
        invariant
            s <= e <= b@.len(),
            e - s == k@.len(),
            i <= k@.len(),
            forall|j: int| 0 <= j < i ==> b@[s + j] == k@[j],
        decreases k@.len() - i,
    {
        if b[s + i] != k[i] {
            assert(b@.subrange(s as int, e as int)[i as int] != k@[i as int]);
            return false;
        }
        i += 1;
    }
    assert(b@.subrange(s as int, e as int) =~= k@);
    true
}

fn keyword_at(b: &[u8], s: usize, e: usize) -> (r: bool)
    requires
        s <= e <= b@.len(),
    ensures
        r == is_keyword(b@.subrange(s as int, e as int)),
{
    same_bytes(b, s, e, "break".as_bytes())
        || same_bytes(b, s, e, "do".as_bytes())
        || same_bytes(b, s, e, "else".as_bytes())
        || same_bytes(b, s, e, "elseif".as_bytes())
        || same_bytes(b, s, e, "end".as_bytes())
        || same_bytes(b, s, e, "for".as_bytes())
        || same_bytes(b, s, e, "function".as_bytes())
        || same_bytes(b, s, e, "goto".as_bytes())
        || same_bytes(b, s, e, "if".as_bytes())
        || same_bytes(b, s, e, "in".as_bytes())
        || same_bytes(b, s, e, "local".as_bytes())
        || same_bytes(b, s, e, "repeat".as_bytes())
        || same_bytes(b, s, e, "return".as_bytes())
        || same_bytes(b, s, e, "then".as_bytes())
        || same_bytes(b, s, e, "until".as_bytes())
        || same_bytes(b, s, e, "while".as_bytes())
}

fn code_byte_exec(c: u8, i: usize, after: bool) -> (r: Lex)
    ensures
        r == code_byte(c, i as int, after),
{
    if c == 45 {
        Lex::Dash { after }
    } else if c == 34 || c == 39 {
        if after { Lex::Rejected } else { Lex::Str { quote: c } }
    } else if c == 123 {
        if after { Lex::Rejected } else { Lex::Code { after: false } }
    } else if c == 40 || c == 41 || c == 58 {
        Lex::Rejected
    } else if c == 91 {
        Lex::Bracket
    } else if c == 93 {
        Lex::Code { after: true }
    } else if (65 <= c && c <= 90) || (97 <= c && c <= 122) || c == 95 {
        Lex::Word { start: i }
    } else if 48 <= c && c <= 57 {
        Lex::Num
    } else if c == 32 || c == 9 || c == 10 || c == 13 {
        Lex::Code { after }
    } else {
        Lex::Code { after: false }
    }
}

fn step_exec(st: Lex, b: &[u8], i: usize) -> (r: Lex)
    requires
        i < b@.len(),
        st matches Lex::Word { start } ==> start <= i,
    ensures
        r == step(st, b@, i as int),
{
    let c = b[i];
    match st {
        Lex::Code { after } => code_byte_exec(c, i, after),
        Lex::Dash { after } => if c == 45 {
            Lex::CommentStart { after }
        } else {
            code_byte_exec(c, i, false)
        },
        Lex::CommentStart { after } => if c == 91 {
            Lex::Rejected
        } else if c == 10 {
            Lex::Code { after }
        } else {
            Lex::Comment { after }
        },
        Lex::Comment { after } => if c == 10 {
            Lex::Code { after }
        } else {
            Lex::Comment { after }
        },
        Lex::Bracket => if c == 91 || c == 61 {
            Lex::Rejected
        } else {
            code_byte_exec(c, i, false)
        },
        Lex::Word { start } => if (65 <= c && c <= 90) || (97 <= c && c <= 122) || c == 95 || (48
            <= c && c <= 57) {
            Lex::Word { start }
        } else if keyword_at(b, start, i) {
            Lex::Rejected
        } else {
            code_byte_exec(c, i, true)
        },
        Lex::Num => if (65 <= c && c <= 90) || (97 <= c && c <= 122) || c == 95 || (48 <= c && c
            <= 57) || c == 46 {
            Lex::Num
        } else {
            code_byte_exec(c, i, false)
        },
        Lex::Str { quote } => if c == 92 {
            Lex::Esc { quote }
        } else if c == quote {
            Lex::Code { after: false }
        } else {
            Lex::Str { quote }
        },
        Lex::Esc { quote } => Lex::Str { quote },
        Lex::Rejected => Lex::Rejected,
    }
}

proof fn lemma_word_start(b: Seq<u8>, n: int)
    requires
        0 <= n <= b.len(),
    ensures
        lex(b, n) matches Lex::Word { start } ==> start < n,
    decreases n,
{
    if n > 0 {
        lemma_word_start(b, n - 1);
    }
}

proof fn lemma_rejected_stays(b: Seq<u8>, i: int, n: int)
    requires
        0 <= i <= n,
        lex(b, i) is Rejected,
    ensures
        lex(b, n) is Rejected,
    decreases n - i,
{
    if n > i {
        lemma_rejected_stays(b, i, n - 1);
    }
}

/// Whether `content` is a data script: text the interpreter may run.
pub fn is_data_script_text(content: &str) -> (r: bool)
    ensures
        r == is_data_script(content.spec_bytes()),
{
    let b = content.as_bytes();
    let n = b.len();
    let mut st = Lex::Code { after: false };
    let mut i: usize = 0;
    while i < n
        invariant
            n == b@.len(),
            b@ == content.spec_bytes(),
            i <= n,
            st == lex(b@, i as int),
        decreases n - i,
    {
        proof {
            lemma_word_start(b@, i as int);
        }
        if let Lex::Rejected = st {
            proof {
                lemma_rejected_stays(b@, i as int, n as int);
            }
            return false;
        }
        st = step_exec(st, b, i);
        i += 1;
    }
    proof {
        lemma_word_start(b@, n as int);
    }
    match st {
        Lex::Rejected => false,
        Lex::Str { .. } => false,
        Lex::Esc { .. } => false,
        Lex::Word { start } => !keyword_at(b, start, n),
        _ => true,
    }
}

} // verus!
