//! The decisions of the GLSL minifier: short names for functions and
//! locals, the rewrites it applies to expressions, and the clean-up of the
//! printed source.
use crate::resource_pack::files::atlas::regex_compiles;
use crate::text::{chars_of, join3, starts_with, starts_with_chars, string_of};
use vstd::hash_map::StringHashMap;
use vstd::prelude::*;

verus! {

/// The lower-case letters, in order.
pub open spec fn alphabet() -> Seq<char> {
    seq![
        'a', 'b', 'c', 'd', 'e', 'f', 'g', 'h', 'i', 'j', 'k', 'l', 'm', 'n', 'o', 'p', 'q', 'r', 's',
        't', 'u', 'v', 'w', 'x', 'y', 'z',
    ]
}

/// The short name of number `id`: its base-26 digits, least significant
/// first, written as letters (0 is `a`, 25 is `z`, 26 is `ab`).
pub open spec fn letter_name(id: nat) -> Seq<char> {
    crate::renamer::digits(id, 26).map_values(|d: nat| alphabet()[d as int])
}

/// The short name of number `id`, in letters.
pub fn generate_short_name(id: usize) -> (r: String)
    ensures
        r@ == letter_name(id as nat),
{
    let letters: Vec<char> = vec![
        'a', 'b', 'c', 'd', 'e', 'f', 'g', 'h', 'i', 'j', 'k', 'l', 'm', 'n', 'o', 'p', 'q', 'r', 's',
        't', 'u', 'v', 'w', 'x', 'y', 'z',
    ];
    assert(letters@ =~= alphabet());
    let mut name: Vec<char> = Vec::new();
    let mut rest: usize = id;
    loop
        invariant_except_break
            letters@ == alphabet(),
            letter_name(id as nat) == name@ + letter_name(rest as nat),
        ensures
            letter_name(id as nat) == name@,
        decreases rest,
    {
        let rem = rest % 26;
        name.push(letters[rem]);
        proof {
            if rest >= 26 {
                assert(crate::renamer::digits(rest as nat, 26) =~= seq![(rest % 26) as nat]
                    + crate::renamer::digits((rest / 26) as nat, 26));
                assert(letter_name(rest as nat) =~= seq![alphabet()[rem as int]] + letter_name(
                    (rest / 26) as nat,
                ));
            } else {
                assert(letter_name(rest as nat) =~= seq![alphabet()[rem as int]]);
            }
        }
        if rest < 26 {
            assert(letter_name(id as nat) =~= name@);
            break;
        }
        rest = rest / 26;
        assert(letter_name(id as nat) =~= name@ + letter_name(rest as nat));
    }
    string_of(&name)
}

/// The swizzle letter of `c` in the `xyzw` set: `rgba` and `stpq` name the
/// same components.
pub open spec fn xyzw_of(c: char) -> char {
    if c == 'r' || c == 's' {
        'x'
    } else if c == 'g' || c == 't' {
        'y'
    } else if c == 'b' || c == 'p' {
        'z'
    } else if c == 'a' || c == 'q' {
        'w'
    } else {
        c
    }
}

/// `rgba` and `stpq` name the same four components as `xyzw`, in the same
/// order, so a colour or texture swizzle rewritten with `xyzw` keeps its
/// length and names the same components, with `xyzw` letters only.
pub proof fn swizzle_letters_keep_their_component(field: Seq<char>)
    ensures
        forall|i: int|
            0 <= i < 4 ==> xyzw_of(#[trigger] "rgba"@[i]) == "xyzw"@[i] && xyzw_of("stpq"@[i]) == "xyzw"@[i],
        is_color_swizzle(field) ==> forall|i: int| 0 <= i < field.len() ==> "xyzw"@.contains(xyzw_of(#[trigger] field[i])),
{
    reveal_strlit("rgba");
    reveal_strlit("stpq");
    reveal_strlit("xyzw");
    reveal_strlit("rgbastpq");
    if is_color_swizzle(field) {
        assert forall|i: int| 0 <= i < field.len() implies "xyzw"@.contains(xyzw_of(#[trigger] field[i])) by {
            assert("rgbastpq"@.contains(field[i]));
            let k = choose|k: int| 0 <= k < 8 && "rgbastpq"@[k] == field[i];
            let x = xyzw_of(field[i]);
            assert("xyzw"@[0] == 'x' && "xyzw"@[1] == 'y' && "xyzw"@[2] == 'z' && "xyzw"@[3] == 'w');
            if x == 'x' {
                assert("xyzw"@[0] == x);
            } else if x == 'y' {
                assert("xyzw"@[1] == x);
            } else if x == 'z' {
                assert("xyzw"@[2] == x);
            } else {
                assert("xyzw"@[3] == x);
            }
        }
    }
}

/// Single-letter names go to the first 26 numbers, longer ones after.
pub proof fn letter_names_grow(a: nat, b: nat)
    ensures
        letter_name(a).len() == 1 <==> a < 26,
        a <= b ==> letter_name(a).len() <= letter_name(b).len(),
{
    crate::renamer::lemma_digits_bounded(a, 26);
    if a >= 26 {
        crate::renamer::lemma_digits_bounded(a / 26, 26);
    }
    if a <= b {
        crate::renamer::lemma_digits_length_monotone(a, b, 26);
    }
}

/// Writes a swizzle with `xyzw` letters.
pub fn normalize_swizzle(swizzle: &str) -> (r: String)
    ensures
        r@ == swizzle@.map_values(|c: char| xyzw_of(c)),
{
    let s = chars_of(swizzle);
    let mut out: Vec<char> = Vec::new();
    let mut i: usize = 0;
    while i < s.len()
        invariant
            i <= s.len(),
            s@ == swizzle@,
            out@ == s@.take(i as int).map_values(|c: char| xyzw_of(c)),
        decreases s.len() - i,
    {
        let c = s[i];
        let x = if c == 'r' || c == 's' {
            'x'
        } else if c == 'g' || c == 't' {
            'y'
        } else if c == 'b' || c == 'p' {
            'z'
        } else if c == 'a' || c == 'q' {
            'w'
        } else {
            c
        };
        out.push(x);
        assert(s@.take(i + 1) =~= s@.take(i as int).push(c));
        assert(out@ =~= s@.take(i + 1).map_values(|c: char| xyzw_of(c)));
        i = i + 1;
    }
    assert(s@.take(s.len() as int) =~= s@);
    string_of(&out)
}

/// A field of a vector that only names colour (`rgba`) or texture (`stpq`)
/// components, which the minifier rewrites with `xyzw`.
pub open spec fn is_color_swizzle(field: Seq<char>) -> bool {
    field.len() > 0 && forall|i: int| 0 <= i < field.len() ==> "rgbastpq"@.contains(#[trigger] field[i])
}

/// Whether a vector field is rewritten as an `xyzw` swizzle.
pub fn rewrites_swizzle(field: &str) -> (r: bool)
    ensures
        r == is_color_swizzle(field@),
{
    let s = chars_of(field);
    let letters = chars_of("rgbastpq");
    if s.len() == 0 {
        return false;
    }
    let mut i: usize = 0;
    while i < s.len()
        invariant
            i <= s.len(),
            s@ == field@,
            letters@ == "rgbastpq"@,
            forall|j: int| 0 <= j < i ==> "rgbastpq"@.contains(#[trigger] s@[j]),
        decreases s.len() - i,
    {
        let mut found = false;
        let mut k: usize = 0;
        while k < letters.len()
            invariant
                k <= letters.len(),
                i < s.len(),
                letters@ == "rgbastpq"@,
                found == exists|q: int| 0 <= q < k && letters@[q] == s@[i as int],
            decreases letters.len() - k,
        {
            if letters[k] == s[i] {
                found = true;
            }
            k = k + 1;
        }
        if !found {
            proof {
                if "rgbastpq"@.contains(s@[i as int]) {
                    let q = choose|q: int| 0 <= q < letters@.len() && letters@[q] == s@[i as int];
                }
            }
            return false;
        }
        i = i + 1;
    }
    true
}

/// The number of components of a vector constructor (`vec2`, `ivec3`,
/// `uvec4`, `bvec2`, ...).
pub open spec fn vector_arity(name: Seq<char>) -> Option<usize> {
    if name == "vec2"@ || name == "ivec2"@ || name == "uvec2"@ || name == "bvec2"@ {
        Some(2)
    } else if name == "vec3"@ || name == "ivec3"@ || name == "uvec3"@ || name == "bvec3"@ {
        Some(3)
    } else if name == "vec4"@ || name == "ivec4"@ || name == "uvec4"@ || name == "bvec4"@ {
        Some(4)
    } else {
        None
    }
}

/// The number of components of the vector that `name` constructs; a call
/// that gives them all the same float is written with that one float.
pub fn vector_constructor_arity(name: &str) -> (r: Option<usize>)
    ensures
        r == vector_arity(name@),
{
    let n = name.to_owned();
    if n == "vec2".to_owned() || n == "ivec2".to_owned() || n == "uvec2".to_owned() || n == "bvec2".to_owned() {
        Some(2)
    } else if n == "vec3".to_owned() || n == "ivec3".to_owned() || n == "uvec3".to_owned() || n
        == "bvec3".to_owned() {
        Some(3)
    } else if n == "vec4".to_owned() || n == "ivec4".to_owned() || n == "uvec4".to_owned() || n
        == "bvec4".to_owned() {
        Some(4)
    } else {
        None
    }
}

/// The binary operators of GLSL.
#[derive(Clone, Copy, Debug, PartialEq, Eq, Structural)]
pub enum BinaryOp {
    Or,
    Xor,
    And,
    BitOr,
    BitXor,
    BitAnd,
    Equal,
    NonEqual,
    Lt,
    Gt,
    Lte,
    Gte,
    LShift,
    RShift,
    Add,
    Sub,
    Mult,
    Div,
    Mod,
}

/// The compound assignment operators of GLSL.
#[derive(Clone, Copy, Debug, PartialEq, Eq, Structural)]
pub enum AssignOp {
    Mult,
    Div,
    Mod,
    Add,
    Sub,
    LShift,
    RShift,
    And,
    Xor,
    Or,
}

/// `a = a <op> b` becomes `a <op>= b` for the operators that have a
/// compound assignment.
pub fn compound_assignment(op: BinaryOp) -> (r: Option<AssignOp>)
    ensures
        r == (match op {
            BinaryOp::Add => Some(AssignOp::Add),
            BinaryOp::Sub => Some(AssignOp::Sub),
            BinaryOp::Mult => Some(AssignOp::Mult),
            BinaryOp::Div => Some(AssignOp::Div),
            BinaryOp::Mod => Some(AssignOp::Mod),
            BinaryOp::LShift => Some(AssignOp::LShift),
            BinaryOp::RShift => Some(AssignOp::RShift),
            BinaryOp::BitAnd => Some(AssignOp::And),
            BinaryOp::BitXor => Some(AssignOp::Xor),
            BinaryOp::BitOr => Some(AssignOp::Or),
            _ => None,
        }),
{
    match op {
        BinaryOp::Add => Some(AssignOp::Add),
        BinaryOp::Sub => Some(AssignOp::Sub),
        BinaryOp::Mult => Some(AssignOp::Mult),
        BinaryOp::Div => Some(AssignOp::Div),
        BinaryOp::Mod => Some(AssignOp::Mod),
        BinaryOp::LShift => Some(AssignOp::LShift),
        BinaryOp::RShift => Some(AssignOp::RShift),
        BinaryOp::BitAnd => Some(AssignOp::And),
        BinaryOp::BitXor => Some(AssignOp::Xor),
        BinaryOp::BitOr => Some(AssignOp::Or),
        _ => None,
    }
}

/// Names that start with `gl_` are built into GLSL and keep their name.
pub fn is_builtin_name(name: &str) -> (r: bool)
    ensures
        r == starts_with(name@, "gl_"@),
{
    starts_with_chars(&chars_of(name), &chars_of("gl_"))
}

} // verus!

verus! {

/// `str::replace`: every non-overlapping occurrence of `pat`, from the left,
/// replaced by `rep`.
pub open spec fn replace_all(s: Seq<char>, pat: Seq<char>, rep: Seq<char>) -> Seq<char>
    decreases s.len(),
{
    if pat.len() == 0 || s.len() < pat.len() {
        s
    } else if s.take(pat.len() as int) == pat {
        rep + replace_all(s.skip(pat.len() as int), pat, rep)
    } else {
        seq![s[0]] + replace_all(s.skip(1), pat, rep)
    }
}

/// A space or a tab.
pub open spec fn is_blank(c: char) -> bool {
    c == ' ' || c == '\t'
}

/// The words of `s` (the runs between spaces and tabs), joined by single
/// spaces: `started` tells whether a word was already written, `pending`
/// whether a blank followed it.
pub open spec fn squeeze(s: Seq<char>, started: bool, pending: bool) -> Seq<char>
    decreases s.len(),
{
    if s.len() == 0 {
        Seq::empty()
    } else if is_blank(s[0]) {
        squeeze(s.drop_first(), started, started)
    } else {
        (if pending {
            seq![' ', s[0]]
        } else {
            seq![s[0]]
        }) + squeeze(s.drop_first(), true, false)
    }
}

/// The clean-up of printed GLSL: the spaces that the printer leaves around
/// braces, parentheses and after commas go, then runs of spaces and tabs
/// become one space and blanks at the ends go.
pub open spec fn optimized(s: Seq<char>) -> Seq<char> {
    let s1 = replace_all(s, seq![' ', '{'], seq!['{']);
    let s2 = replace_all(s1, seq!['{', ' '], seq!['{']);
    let s3 = replace_all(s2, seq![' ', '}'], seq!['}']);
    let s4 = replace_all(s3, seq![' ', '('], seq!['(']);
    let s5 = replace_all(s4, seq!['(', ' '], seq!['(']);
    let s6 = replace_all(s5, seq![')', ' '], seq![')']);
    let s7 = replace_all(s6, seq![' ', ')'], seq![')']);
    let s8 = replace_all(s7, seq![',', ' '], seq![',']);
    squeeze(s8, false, false)
}

fn replace_pair(s: &Vec<char>, a: char, b: char, rep: char) -> (r: Vec<char>)
    ensures
        r@ == replace_all(s@, seq![a, b], seq![rep]),
{
    let ghost pat = seq![a, b];
    let mut out: Vec<char> = Vec::new();
    let mut i: usize = 0;
    assert(s@.skip(0) =~= s@);
    assert(out@ + replace_all(s@, pat, seq![rep]) =~= replace_all(s@, pat, seq![rep]));
    while i < s.len()
        invariant
            i <= s.len(),
            pat == seq![a, b],
            out@ + replace_all(s@.skip(i as int), pat, seq![rep]) == replace_all(s@, pat, seq![rep]),
        decreases s.len() - i,
    {
        let ghost rest = s@.skip(i as int);
        if i + 1 < s.len() && s[i] == a && s[i + 1] == b {
            assert(rest.take(2) =~= pat);
            assert(rest.skip(2) =~= s@.skip(i + 2));
            out.push(rep);
            assert(out@ + replace_all(s@.skip(i + 2), pat, seq![rep]) =~= replace_all(s@, pat, seq![rep]));
            i = i + 2;
        } else {
            assert(rest.skip(1) =~= s@.skip(i + 1));
            proof {
                if rest.len() >= 2 {
                    assert(rest.take(2) != pat) by {
                        if rest.take(2) == pat {
                            assert(rest.take(2)[0] == s[i as int] && rest.take(2)[1] == s[i + 1]);
                        }
                    }
                }
            }
            out.push(s[i]);
            assert(out@ + replace_all(s@.skip(i + 1), pat, seq![rep]) =~= replace_all(s@, pat, seq![rep]));
            i = i + 1;
        }
    }
    assert(s@.skip(s.len() as int) =~= Seq::<char>::empty());
    assert(out@ =~= out@ + replace_all(s@.skip(s.len() as int), pat, seq![rep]));
    out
}

fn squeeze_blanks(s: &Vec<char>) -> (r: Vec<char>)
    ensures
        r@ == squeeze(s@, false, false),
{
    let mut out: Vec<char> = Vec::new();
    let mut started = false;
    let mut pending = false;
    let mut i: usize = 0;
    assert(s@.skip(0) =~= s@);
    assert(out@ + squeeze(s@, false, false) =~= squeeze(s@, false, false));
    while i < s.len()
        invariant
            i <= s.len(),
            out@ + squeeze(s@.skip(i as int), started, pending) == squeeze(s@, false, false),
        decreases s.len() - i,
    {
        let c = s[i];
        assert(s@.skip(i as int).drop_first() =~= s@.skip(i + 1));
        if c == ' ' || c == '\t' {
            pending = started;
        } else {
            if pending {
                out.push(' ');
            }
            out.push(c);
            started = true;
            pending = false;
        }
        assert(out@ + squeeze(s@.skip(i + 1), started, pending) =~= squeeze(s@, false, false));
        i = i + 1;
    }
    assert(out@ =~= out@ + squeeze(s@.skip(s.len() as int), started, pending));
    out
}

/// Removes the spaces that printing GLSL leaves behind.
pub fn optimize_string(input: &str) -> (r: String)
    ensures
        r@ == optimized(input@),
{
    let s0 = chars_of(input);
    let s1 = replace_pair(&s0, ' ', '{', '{');
    let s2 = replace_pair(&s1, '{', ' ', '{');
    let s3 = replace_pair(&s2, ' ', '}', '}');
    let s4 = replace_pair(&s3, ' ', '(', '(');
    let s5 = replace_pair(&s4, '(', ' ', '(');
    let s6 = replace_pair(&s5, ')', ' ', ')');
    let s7 = replace_pair(&s6, ' ', ')', ')');
    let s8 = replace_pair(&s7, ',', ' ', ',');
    string_of(&squeeze_blanks(&s8))
}

} // verus!

verus! {

/// `text` with every match of the compiled `pattern` replaced by
/// `replacement`, as `Regex::replace_all` computes it.
pub uninterp spec fn regex_replaced_all(pattern: Seq<char>, text: Seq<char>, replacement: Seq<char>) -> Seq<char>;

/// `regex::Regex::new` on `pattern`, then `Regex::replace_all` of `text` by
/// `replacement`; when the pattern does not compile the text is kept. The
/// contract says no more than that the result is fixed by the three texts.
#[verifier::external_body]
fn regex_replace_all(pattern: &str, text: &str, replacement: &str) -> (r: String)
    ensures
        regex_compiles(pattern@) ==> r@ == regex_replaced_all(pattern@, text@, replacement@),
        !regex_compiles(pattern@) ==> r@ == text@,
{
    match regex::Regex::new(pattern) {
        Ok(re) => re.replace_all(text, replacement).into_owned(),
        Err(_) => text.to_owned(),
    }
}

/// The pattern that matches `word` as a whole word: `\b<word>\b`.
pub open spec fn word_pattern(word: Seq<char>) -> Seq<char> {
    seq!['\\', 'b'] + word + seq!['\\', 'b']
}

/// Replaces the whole-word occurrences of `word` in `text` by `replacement`.
fn replace_word(text: &str, word: &str, replacement: &str) -> (r: String)
    ensures
        r@ == replaced_word(text@, word@, replacement@),
{
    let boundary = string_of(&vec!['\\', 'b']);
    assert(boundary@ =~= seq!['\\', 'b']);
    let pattern = join3(boundary.as_str(), word, boundary.as_str());
    regex_replace_all(pattern.as_str(), text, replacement)
}

/// One whole-word replacement, or none when the pattern does not compile.
pub open spec fn replaced_word(text: Seq<char>, word: Seq<char>, replacement: Seq<char>) -> Seq<char> {
    if regex_compiles(word_pattern(word)) {
        regex_replaced_all(word_pattern(word), text, replacement)
    } else {
        text
    }
}

/// The text after the locals of `locals[i..]` whose name has `len`
/// characters are replaced, in order, by their short names.
pub open spec fn replace_length(text: Seq<char>, locals: Seq<Seq<char>>, len: nat, i: int) -> Seq<char>
    decreases locals.len() - i,
{
    if i < 0 || i >= locals.len() {
        text
    } else {
        let next = if locals[i].len() == len {
            replaced_word(text, locals[i], letter_name(i as nat))
        } else {
            text
        };
        replace_length(next, locals, len, i + 1)
    }
}

/// The text after the locals are replaced by their short names, longest
/// names first (from `len` down), in registration order among names of one
/// length.
pub open spec fn replace_down(text: Seq<char>, locals: Seq<Seq<char>>, len: nat) -> Seq<char>
    decreases len,
{
    let next = replace_length(text, locals, len, 0);
    if len == 0 {
        next
    } else {
        replace_down(next, locals, (len - 1) as nat)
    }
}

/// The length of the longest of the first `n` names.
pub open spec fn longest(names: Seq<Seq<char>>, n: int) -> nat
    decreases n,
{
    if n <= 0 {
        0
    } else {
        let rest = longest(names, n - 1);
        if names[n - 1].len() > rest {
            names[n - 1].len()
        } else {
            rest
        }
    }
}

/// The function names after the first `i` of `names` are numbered from
/// `count`: each name that is not `main` and not already named gets the
/// next short name.
pub open spec fn function_table(
    table: Map<Seq<char>, Seq<char>>,
    names: Seq<Seq<char>>,
    count: nat,
    i: int,
) -> Map<Seq<char>, Seq<char>>
    decreases names.len() - i,
{
    if i < 0 || i >= names.len() {
        table
    } else if names[i] != "main"@ && !table.contains_key(names[i]) {
        function_table(table.insert(names[i], letter_name(count)), names, count + 1, i + 1)
    } else {
        function_table(table, names, count, i + 1)
    }
}

/// The short names the minifier gives to functions and to local names
/// (variables, parameters and macros), numbered in the order they are met.
pub struct Minifier {
    function_mapping: StringHashMap<String>,
    local_mapping: StringHashMap<String>,
    local_names: Vec<String>,
}

impl Minifier {
    /// The local names, in the order they were registered; the `i`-th is
    /// renamed to `letter_name(i)`.
    pub closed spec fn locals(&self) -> Seq<Seq<char>> {
        crate::overlay_remover::texts(self.local_names@)
    }

    /// The new name of each renamed function.
    pub closed spec fn functions(&self) -> Map<Seq<char>, Seq<char>> {
        crate::renamer::table_texts(self.function_mapping@)
    }

    /// Each registered local appears once, the local table holds exactly the
    /// registered locals, and the `i`-th is named `letter_name(i)`.
    pub closed spec fn wf(&self) -> bool {
        let locals = crate::overlay_remover::texts(self.local_names@);
        &&& forall|i: int, j: int| 0 <= i < j < locals.len() ==> locals[i] != locals[j]
        &&& forall|k: Seq<char>| #[trigger]
            self.local_mapping@.contains_key(k) <==> locals.contains(k)
        &&& forall|i: int|
            0 <= i < locals.len() ==> self.local_mapping@[#[trigger] locals[i]]@ == letter_name(i as nat)
    }

    /// A minifier that renames nothing yet.
    pub fn new() -> (r: Self)
        ensures
            r.wf(),
            r.locals().len() == 0,
            r.functions() == Map::<Seq<char>, Seq<char>>::empty(),
    {
        let r = Minifier {
            function_mapping: StringHashMap::new(),
            local_mapping: StringHashMap::new(),
            local_names: Vec::new(),
        };
        assert(r.functions() =~= Map::<Seq<char>, Seq<char>>::empty());
        r
    }

    /// Numbers the functions defined in the shader, in order, skipping
    /// `main` and names that already have a short name.
    pub fn generate_function_mapping(&mut self, names: &Vec<String>)
        requires
            old(self).wf(),
        ensures
            final(self).wf(),
            final(self).functions() == function_table(
                old(self).functions(),
                crate::overlay_remover::texts(names@),
                0,
                0,
            ),
            final(self).locals() == old(self).locals(),
    {
        let ghost target = function_table(self.functions(), crate::overlay_remover::texts(names@), 0, 0);
        let ghost nv = crate::overlay_remover::texts(names@);
        let mut count: usize = 0;
        let mut i: usize = 0;
        let main = "main".to_owned();
        while i < names.len()
            invariant
                i <= names.len(),
                count <= i,
                nv == crate::overlay_remover::texts(names@),
                main@ == "main"@,
                self.wf(),
                self.local_mapping@ == old(self).local_mapping@,
                self.local_names@ == old(self).local_names@,
                target == function_table(crate::renamer::table_texts(self.function_mapping@), nv, count as nat, i as int),
            decreases names.len() - i,
        {
            assert(nv[i as int] == names@[i as int]@);
            let name = &names[i];
            if *name != main && !self.function_mapping.contains_key(name.as_str()) {
                let new_name = generate_short_name(count);
                let ghost before = self.function_mapping@;
                self.function_mapping.insert(name.clone(), new_name);
                assert(crate::renamer::table_texts(self.function_mapping@) =~= crate::renamer::table_texts(before).insert(
                    name@,
                    letter_name(count as nat),
                ));
                count = count + 1;
            }
            i = i + 1;
        }
    }

    /// Gives `name` the next short name, unless it has one.
    pub fn register_local(&mut self, name: String)
        requires
            old(self).wf(),
        ensures
            final(self).wf(),
            old(self).locals().contains(name@) ==> final(self).locals() == old(self).locals(),
            !old(self).locals().contains(name@) ==> final(self).locals() == old(self).locals().push(name@),
            final(self).functions() == old(self).functions(),
    {
        if !self.local_mapping.contains_key(name.as_str()) {
            let ghost locals = self.locals();
            let n = self.local_names.len();
            let new_name = generate_short_name(n);
            let ghost before = self.local_mapping@;
            self.local_mapping.insert(name.clone(), new_name);
            self.local_names.push(name);
            assert(self.locals() =~= locals.push(name@));
            assert forall|k: Seq<char>| #[trigger] self.local_mapping@.contains_key(k) <==> self.locals().contains(k) by {
                assert(before.contains_key(k) == locals.contains(k));
                assert(self.locals()[n as int] == name@);
                if self.locals().contains(k) && k != name@ {
                    let j = choose|j: int| 0 <= j < self.locals().len() && self.locals()[j] == k;
                    assert(locals[j] == k);
                }
                if locals.contains(k) {
                    let j = choose|j: int| 0 <= j < locals.len() && locals[j] == k;
                    assert(self.locals()[j] == k);
                }
            }
            assert forall|i: int|
                0 <= i < self.locals().len() implies self.local_mapping@[#[trigger] self.locals()[i]]@ == letter_name(
                i as nat,
            ) by {
                if i < n {
                    assert(self.locals()[i] == locals[i]);
                    assert(locals[i] != name@);
                }
            }
        }
    }

    /// The short name of a local name, if it has one.
    pub fn local_name(&self, name: &str) -> (r: Option<String>)
        requires
            self.wf(),
        ensures
            r is Some <==> self.locals().contains(name@),
            r matches Some(s) ==> exists|i: int|
                0 <= i < self.locals().len() && self.locals()[i] == name@ && s@ == letter_name(i as nat),
    {
        match self.local_mapping.get(name) {
            Some(s) => {
                let r = s.clone();
                proof {
                    let i = choose|i: int| 0 <= i < self.locals().len() && self.locals()[i] == name@;
                    assert(self.local_mapping@[self.locals()[i]]@ == letter_name(i as nat));
                }
                Some(r)
            },
            None => None,
        }
    }

    /// The short name of a function, if it has one.
    pub fn function_name(&self, name: &str) -> (r: Option<String>)
        ensures
            r is Some <==> self.functions().contains_key(name@),
            r matches Some(s) ==> s@ == self.functions()[name@],
    {
        match self.function_mapping.get(name) {
            Some(s) => Some(s.clone()),
            None => None,
        }
    }

    /// Rewrites the body of a macro: each local name, as a whole word, is
    /// replaced by its short name, longest names first.
    pub fn rewrite_macro_body(&self, value: &str) -> (r: String)
        requires
            self.wf(),
        ensures
            r@ == replace_down(value@, self.locals(), longest(self.locals(), self.locals().len() as int)),
    {
        let ghost locals = self.locals();
        let n = self.local_names.len();
        let mut lengths: Vec<usize> = Vec::new();
        let mut max: usize = 0;
        let mut i: usize = 0;
        while i < n
            invariant
                i <= n == self.local_names.len(),
                locals == self.locals(),
                locals.len() == n,
                lengths.len() == i,
                forall|q: int| 0 <= q < i ==> #[trigger] lengths@[q] == locals[q].len(),
                max == longest(locals, i as int),
            decreases n - i,
        {
            assert(locals[i as int] == self.local_names@[i as int]@);
            let l = chars_of(self.local_names[i].as_str()).len();
            lengths.push(l);
            if l > max {
                max = l;
            }
            i = i + 1;
        }
        let mut text = value.to_owned();
        let mut len: usize = max;
        loop
            invariant_except_break
                locals == self.locals(),
                locals.len() == n == self.local_names.len(),
                lengths.len() == n,
                forall|q: int| 0 <= q < n ==> #[trigger] lengths@[q] == locals[q].len(),
                replace_down(value@, locals, max as nat) == replace_down(text@, locals, len as nat),
            ensures
                replace_down(value@, locals, max as nat) == text@,
            decreases len,
        {
            let ghost start = text@;
            let mut k: usize = 0;
            while k < n
                invariant
                    k <= n,
                    locals == self.locals(),
                    locals.len() == n == self.local_names.len(),
                    lengths.len() == n,
                    forall|q: int| 0 <= q < n ==> #[trigger] lengths@[q] == locals[q].len(),
                    replace_length(start, locals, len as nat, 0) == replace_length(text@, locals, len as nat, k as int),
                decreases n - k,
            {
                assert(lengths@[k as int] == locals[k as int].len());
                assert(locals[k as int] == self.local_names@[k as int]@);
                if lengths[k] == len {
                    let short = generate_short_name(k);
                    text = replace_word(text.as_str(), self.local_names[k].as_str(), short.as_str());
                }
                k = k + 1;
            }
            if len == 0 {
                break;
            }
            len = len - 1;
        }
        text
    }
}

} // verus!

verus! {

/// Different numbers get different letter names, so the locals and the
/// functions of a shader get distinct short names.
pub proof fn letter_name_injective(a: nat, b: nat)
    requires
        letter_name(a) == letter_name(b),
    ensures
        a == b,
{
    let da = crate::renamer::digits(a, 26);
    let db = crate::renamer::digits(b, 26);
    crate::renamer::lemma_digits_bounded(a, 26);
    crate::renamer::lemma_digits_bounded(b, 26);
    assert(da.len() == letter_name(a).len());
    assert(db.len() == letter_name(b).len());
    let c = alphabet();
    assert(c[0] == 'a' && c[1] == 'b' && c[2] == 'c' && c[3] == 'd' && c[4] == 'e' && c[5] == 'f'
        && c[6] == 'g' && c[7] == 'h' && c[8] == 'i' && c[9] == 'j' && c[10] == 'k' && c[11] == 'l'
        && c[12] == 'm' && c[13] == 'n' && c[14] == 'o' && c[15] == 'p' && c[16] == 'q' && c[17]
        == 'r' && c[18] == 's' && c[19] == 't' && c[20] == 'u' && c[21] == 'v' && c[22] == 'w'
        && c[23] == 'x' && c[24] == 'y' && c[25] == 'z');
    assert forall|i: int| 0 <= i < da.len() implies da[i] == db[i] by {
        assert(letter_name(a)[i] == c[da[i] as int]);
        assert(letter_name(b)[i] == c[db[i] as int]);
    }
    assert(da =~= db);
    crate::renamer::lemma_digits_injective(a, b, 26);
}

} // verus!
