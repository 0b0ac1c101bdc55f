//! Source text to instruction stream, and the table of matching brackets.
use vstd::prelude::*;

verus! {

/// The byte of each instruction in the stream: `+`, `,`, `-`, `.`, `<`, `>`,
/// `[`, `]`.
pub const PLUS: u8 = 43;

pub const COMMA: u8 = 44;

pub const MINUS: u8 = 45;

pub const DOT: u8 = 46;

pub const LEFT: u8 = 60;

pub const RIGHT: u8 = 62;

pub const OPEN: u8 = 91;

pub const CLOSE: u8 = 93;

/// The characters that carry meaning; everything else is a comment.
pub open spec fn is_instruction(c: char) -> bool {
    c == '+' || c == '-' || c == '.' || c == ',' || c == '<' || c == '>' || c == '[' || c == ']'
}

/// The instruction characters of `text`, in their order.
pub open spec fn strip(text: Seq<char>) -> Seq<char> {
    text.filter(|c: char| is_instruction(c))
}

/// The byte that encodes an instruction character (all of them are ASCII).
pub open spec fn byte_of(c: char) -> u8 {
    if c == '+' {
        PLUS
    } else if c == ',' {
        COMMA
    } else if c == '-' {
        MINUS
    } else if c == '.' {
        DOT
    } else if c == '<' {
        LEFT
    } else if c == '>' {
        RIGHT
    } else if c == '[' {
        OPEN
    } else {
        CLOSE
    }
}

/// The character that an instruction byte stands for.
pub open spec fn char_of(b: u8) -> char {
    if b == PLUS {
        '+'
    } else if b == COMMA {
        ','
    } else if b == MINUS {
        '-'
    } else if b == DOT {
        '.'
    } else if b == LEFT {
        '<'
    } else if b == RIGHT {
        '>'
    } else if b == OPEN {
        '['
    } else {
        ']'
    }
}

/// The instruction stream of a source text.
pub open spec fn code_of(text: Seq<char>) -> Seq<u8> {
    strip(text).map_values(|c: char| byte_of(c))
}

/// The stream written back out as text.
pub open spec fn text_of(code: Seq<u8>) -> Seq<char> {
    code.map_values(|b: u8| char_of(b))
}

const NON_INSTRUCTION: &'static str = r"[^<>\+-\.,\[\]]";

/// Relies on regex's `Regex::new` and `Regex::replace_all`: the pattern is one
/// character class that matches every character but the eight instructions
/// (`\+-\.` is the range `+ , - .`), so replacing all its matches by nothing
/// keeps exactly the instruction characters, in order. The pattern is valid, so
/// `Regex::new` does not fail.
#[verifier::external_body]
fn remove_comments(text: &str) -> (r: Vec<u8>)
    ensures
        r@ == code_of(text@),
{
    let re = regex::Regex::new(NON_INSTRUCTION).unwrap();
    re.replace_all(text, "").as_bytes().to_vec()
}

/// How far an instruction moves the bracket nesting depth.
pub open spec fn delta(b: u8) -> int {
    if b == OPEN {
        1
    } else if b == CLOSE {
        -1
    } else {
        0
    }
}

/// Opening minus closing brackets among the first `n` instructions.
pub open spec fn depth(code: Seq<u8>, n: int) -> int
    decreases n,
{
    if n <= 0 {
        0
    } else {
        depth(code, n - 1) + delta(code[n - 1])
    }
}

/// No prefix closes more brackets than it opens, and the whole stream closes
/// every bracket it opens.
pub open spec fn balanced(code: Seq<u8>) -> bool {
    &&& forall|n: int| 0 <= n <= code.len() ==> depth(code, n) >= 0
    &&& depth(code, code.len() as int) == 0
}

/// The opening bracket at `o` is closed by the bracket at `c`: the depth first
/// returns to its level before `o` right after `c`.
pub open spec fn matched(code: Seq<u8>, o: int, c: int) -> bool {
    &&& 0 <= o < c < code.len()
    &&& code[o] == OPEN
    &&& code[c] == CLOSE
    &&& depth(code, c + 1) == depth(code, o)
    &&& forall|k: int| o < k <= c ==> depth(code, k) > depth(code, o)
}

/// The opening bracket at `o` is still open after the first `n` instructions.
pub open spec fn open_until(code: Seq<u8>, o: int, n: int) -> bool {
    &&& 0 <= o < n
    &&& code[o] == OPEN
    &&& forall|k: int| o < k <= n ==> depth(code, k) > depth(code, o)
}

/// An instruction that opens or closes a loop.
pub open spec fn is_bracket(b: u8) -> bool {
    b == OPEN || b == CLOSE
}

/// An instruction stream with, for each bracket, the position of its partner.
/// Entries of `jumps` at other positions carry no meaning.
pub struct Program {
    pub code: Vec<u8>,
    pub jumps: Vec<usize>,
}

#[derive(Clone, Copy, Debug, PartialEq, Eq, Structural)]
pub enum PreprocessError {
    /// A closing bracket without an opener, or an opener never closed.
    Unbalanced,
}

impl Program {
    /// The jump table as a map: one entry per bracket position, to its partner.
    pub open spec fn jump_map(&self) -> Map<int, int> {
        Map::new(
            |i: int| 0 <= i < self.code@.len() && is_bracket(self.code@[i]),
            |i: int| self.jumps@[i] as int,
        )
    }

    /// Every bracket position holds its partner: an opener the closer that
    /// matches it, a closer the opener; the table is symmetric.
    pub open spec fn wf(&self) -> bool {
        &&& self.jumps@.len() == self.code@.len()
        &&& forall|i: int|
            0 <= i < self.code@.len() && #[trigger] self.code@[i] == OPEN ==> matched(
                self.code@,
                i,
                self.jumps@[i] as int,
            )
        &&& forall|i: int|
            0 <= i < self.code@.len() && #[trigger] self.code@[i] == CLOSE ==> matched(
                self.code@,
                self.jumps@[i] as int,
                i,
            )
        &&& forall|i: int|
            0 <= i < self.code@.len() && is_bracket(#[trigger] self.code@[i])
                ==> self.jumps@[self.jumps@[i] as int] == i
    }
}

proof fn lemma_depth_step(code: Seq<u8>, n: int)
    requires
        0 <= n,
    ensures
        depth(code, n + 1) == depth(code, n) + delta(code[n]),
{
}

/// Builds the jump table of `code`, or reports that its brackets do not balance.
pub fn match_brackets(code: Vec<u8>) -> (r: Result<Program, PreprocessError>)
    ensures
        match r {
            Ok(p) => p.code@ == code@ && p.wf() && balanced(code@),
            Err(PreprocessError::Unbalanced) => !balanced(code@),
        },
{
    let n = code.len();
    let mut jumps: Vec<usize> = Vec::new();
    let mut stack: Vec<usize> = Vec::new();
    let mut i: usize = 0;
    while i < n
        invariant
            n == code@.len(),
            i <= n,
            jumps@.len() == i,
            stack@.len() == depth(code@, i as int),
            forall|m: int| 0 <= m <= i ==> depth(code@, m) >= 0,
            forall|d: int|
                0 <= d < stack@.len() ==> open_until(code@, #[trigger] stack@[d] as int, i as int)
                    && depth(code@, stack@[d] as int) == d,
            forall|j: int|
                #![trigger code@[j]]
                0 <= j < i && open_until(code@, j, i as int) ==> depth(code@, j) < stack@.len()
                    && stack@[depth(code@, j)] == j,
            forall|j: int|
                #![trigger code@[j]]
                0 <= j < i && code@[j] == OPEN && !open_until(code@, j, i as int) ==> jumps@[j] < i
                    && matched(code@, j, jumps@[j] as int) && jumps@[jumps@[j] as int] == j,
            forall|j: int|
                #![trigger code@[j]]
                0 <= j < i && code@[j] == CLOSE ==> matched(code@, jumps@[j] as int, j)
                    && jumps@[jumps@[j] as int] == j,
        decreases n - i,
    {
        proof {
            lemma_depth_step(code@, i as int);
        }
        let b = code[i];
        if b == OPEN {
            stack.push(i);
            jumps.push(0);
        } else if b == CLOSE {
            if stack.len() == 0 {
                assert(depth(code@, i + 1) < 0);
                return Err(PreprocessError::Unbalanced);
            }
            let o = stack.pop().unwrap();
            jumps.set(o, i);
            jumps.push(o);
        } else {
            jumps.push(0);
        }
        i = i + 1;
    }
    if stack.len() > 0 {
        return Err(PreprocessError::Unbalanced);
    }
    proof {
        assert forall|j: int| 0 <= j < n && code@[j] == OPEN implies !open_until(code@, j, n as int) by {
            if open_until(code@, j, n as int) {
                assert(depth(code@, j) < 0);
            }
        }
    }
    Ok(Program { code, jumps })
}

/// Strips the comments from `text` and pairs up its brackets.
pub fn preprocess(text: &str) -> (r: Result<Program, PreprocessError>)
    ensures
        match r {
            Ok(p) => p.code@ == code_of(text@) && p.wf() && balanced(p.code@),
            Err(PreprocessError::Unbalanced) => !balanced(code_of(text@)),
        },
{
    let code = remove_comments(text);
    match_brackets(code)
}

proof fn lemma_strip_keeps_instructions(text: Seq<char>)
    ensures
        forall|i: int| 0 <= i < strip(text).len() ==> is_instruction(#[trigger] strip(text)[i]),
        strip(strip(text)) == strip(text),
        text_of(code_of(text)) == strip(text),
    decreases text.len(),
{
    reveal(Seq::filter);
    if text.len() > 0 {
        let init = text.drop_last();
        lemma_strip_keeps_instructions(init);
        assert(init =~= text.drop_last());
        if is_instruction(text.last()) {
            let t = strip(text);
            assert(t == strip(init).push(text.last()));
            assert(t.drop_last() =~= strip(init));
            assert(strip(t) == strip(t.drop_last()).push(t.last()));
        } else {
            assert(strip(text) == strip(init));
        }
    }
    assert(text_of(code_of(text)) =~= strip(text));
}

/// Preprocessing removes nothing more from text that is already stripped: the
/// instruction stream of a text, written back out as text, has the same stream.
pub proof fn lemma_preprocess_idempotent(text: Seq<char>)
    ensures
        strip(strip(text)) == strip(text),
        code_of(text_of(code_of(text))) == code_of(text),
{
    lemma_strip_keeps_instructions(text);
}

/// The jump table is symmetric: every partner is itself in the table, and the
/// partner of a position's partner is that position.
pub proof fn lemma_jumps_symmetric(p: &Program)
    requires
        p.wf(),
    ensures
        forall|i: int| #[trigger]
            p.jump_map().dom().contains(i) ==> p.jump_map().dom().contains(p.jump_map()[i])
                && p.jump_map()[p.jump_map()[i]] == i,
{
    assert forall|i: int| #[trigger] p.jump_map().dom().contains(i) implies p.jump_map().dom().contains(
        p.jump_map()[i],
    ) && p.jump_map()[p.jump_map()[i]] == i by {
        let j = p.jumps@[i] as int;
        assert(is_bracket(p.code@[j]));
    }
}

} // verus!
