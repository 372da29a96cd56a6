//! Small verified text builders shared by the TOML writer, the Prometheus
//! renderer and the log/label formatting: decimal rendering of integers and
//! per-character escaping.
use vstd::prelude::*;

verus! {

/// Applies `f` to every character of `s` and concatenates the pieces.
pub open spec fn flat_map_chars(s: Seq<char>, f: spec_fn(char) -> Seq<char>) -> Seq<char>
    decreases s.len(),
{
    if s.len() == 0 {
        Seq::empty()
    } else {
        f(s[0]) + flat_map_chars(s.drop_first(), f)
    }
}

/// `flat_map_chars` distributes over concatenation.
pub proof fn lemma_flat_map_concat(a: Seq<char>, b: Seq<char>, f: spec_fn(char) -> Seq<char>)
    ensures
        flat_map_chars(a + b, f) == flat_map_chars(a, f) + flat_map_chars(b, f),
    decreases a.len(),
{
    if a.len() == 0 {
        assert(a + b =~= b);
    } else {
        lemma_flat_map_concat(a.drop_first(), b, f);
        assert((a + b).drop_first() =~= a.drop_first() + b);
        assert(flat_map_chars(a, f) + flat_map_chars(b, f) =~= f(a[0]) + (flat_map_chars(
            a.drop_first(),
            f,
        ) + flat_map_chars(b, f)));
    }
}

/// Extending the input by one character appends that character's image.
pub proof fn lemma_flat_map_push(s: Seq<char>, c: char, f: spec_fn(char) -> Seq<char>)
    ensures
        flat_map_chars(s.push(c), f) == flat_map_chars(s, f) + f(c),
{
    lemma_flat_map_concat(s, seq![c], f);
    assert(s.push(c) =~= s + seq![c]);
    assert(seq![c].drop_first() =~= Seq::<char>::empty());
    assert(flat_map_chars(Seq::<char>::empty(), f) =~= Seq::<char>::empty());
    assert(flat_map_chars(seq![c], f) =~= f(c) + flat_map_chars(Seq::<char>::empty(), f));
}

/// Appending a piece to `start + prefix` extends the prefix.
pub proof fn lemma_append_step(start: Seq<char>, prefix: Seq<char>, piece: Seq<char>)
    ensures
        (start + prefix) + piece == start + (prefix + piece),
{
    assert((start + prefix) + piece =~= start + (prefix + piece));
}

/// `part` appears somewhere in `whole`, as a contiguous piece.
pub open spec fn occurs_in(part: Seq<char>, whole: Seq<char>) -> bool {
    exists|a: Seq<char>, b: Seq<char>| #[trigger] (a + part + b) == whole
}

/// A piece appears in any text built around it.
pub proof fn lemma_occurs_around(a: Seq<char>, part: Seq<char>, b: Seq<char>)
    ensures
        occurs_in(part, a + part + b),
{
    assert(a + part + b == a + part + b);
}

/// A piece of a piece of a text is a piece of the text.
pub proof fn lemma_occurs_trans(x: Seq<char>, y: Seq<char>, z: Seq<char>)
    requires
        occurs_in(x, y),
        occurs_in(y, z),
    ensures
        occurs_in(x, z),
{
    let (a1, b1) = choose|a: Seq<char>, b: Seq<char>| #[trigger] (a + x + b) == y;
    let (a2, b2) = choose|a: Seq<char>, b: Seq<char>| #[trigger] (a + y + b) == z;
    assert((a2 + a1) + x + (b1 + b2) =~= z);
    lemma_occurs_around(a2 + a1, x, b1 + b2);
}

/// A piece of the front of a text is a piece of the text.
pub proof fn lemma_occurs_in_front(x: Seq<char>, a: Seq<char>, b: Seq<char>)
    requires
        occurs_in(x, a),
    ensures
        occurs_in(x, a + b),
{
    let (u, v) = choose|u: Seq<char>, v: Seq<char>| #[trigger] (u + x + v) == a;
    assert(u + x + (v + b) =~= a + b);
    lemma_occurs_around(u, x, v + b);
}

/// A piece of the back of a text is a piece of the text.
pub proof fn lemma_occurs_in_back(x: Seq<char>, a: Seq<char>, b: Seq<char>)
    requires
        occurs_in(x, b),
    ensures
        occurs_in(x, a + b),
{
    let (u, v) = choose|u: Seq<char>, v: Seq<char>| #[trigger] (u + x + v) == b;
    assert((a + u) + x + v =~= a + b);
    lemma_occurs_around(a + u, x, v);
}

/// Each half of a text is a piece of it.
pub proof fn lemma_occurs_halves(a: Seq<char>, b: Seq<char>)
    ensures
        occurs_in(a, a + b),
        occurs_in(b, a + b),
{
    let e = Seq::<char>::empty();
    assert(e + a + b =~= a + b);
    lemma_occurs_around(e, a, b);
    assert(a + b + e =~= a + b);
    lemma_occurs_around(a, b, e);
}

/// The ten decimal digits, in order.
pub open spec fn digit_chars() -> Seq<char> {
    "0123456789"@
}

/// Base-10 rendering of a natural number, without sign or leading zeros.
pub open spec fn decimal(n: nat) -> Seq<char>
    decreases n,
{
    if n < 10 {
        seq![digit_chars()[n as int]]
    } else {
        decimal(n / 10) + seq![digit_chars()[(n % 10) as int]]
    }
}

/// Renders `n` in base 10, as `n.to_string()` does.
pub fn decimal_string(n: u128) -> (s: String)
    ensures
        s@ == decimal(n as nat),
    decreases n,
{
    let digits = "0123456789";
    proof {
        reveal_strlit("0123456789");
    }
    if n < 10 {
        let d = n as usize;
        let mut s = String::new();
        s.append(digits.substring_char(d, d + 1));
        assert(digits@.subrange(d as int, d + 1) =~= seq![digit_chars()[d as int]]);
        s
    } else {
        let mut s = decimal_string(n / 10);
        let d = (n % 10) as usize;
        s.append(digits.substring_char(d, d + 1));
        assert(digits@.subrange(d as int, d + 1) =~= seq![digit_chars()[d as int]]);
        s
    }
}

/// Bytes in the UTF-8 encoding of a character.
pub open spec fn char_utf8_len(c: char) -> nat {
    let v = c as u32;
    if v < 0x80 {
        1
    } else if v < 0x800 {
        2
    } else if v < 0x10000 {
        3
    } else {
        4
    }
}

/// Bytes in the UTF-8 encoding of a string.
pub open spec fn utf8_len(s: Seq<char>) -> nat
    decreases s.len(),
{
    if s.len() == 0 {
        0
    } else {
        utf8_len(s.drop_last()) + char_utf8_len(s.last())
    }
}

/// The UTF-8 length of a string, in bytes (what `str::len` reports).
pub fn utf8_byte_len(s: &str) -> (r: u128)
    ensures
        r == utf8_len(s@),
{
    let n = s.unicode_len();
    let mut total: u128 = 0;
    let mut i: usize = 0;
    while i < n
        invariant
            n == s@.len(),
            i <= n,
            total == utf8_len(s@.take(i as int)),
            total <= 4 * i,
        decreases n - i,
    {
        let c = s.get_char(i);
        let v = c as u32;
        let w: u128 = if v < 0x80 {
            1
        } else if v < 0x800 {
            2
        } else if v < 0x10000 {
            3
        } else {
            4
        };
        assert(s@.take(i + 1).drop_last() =~= s@.take(i as int));
        total = total + w;
        i = i + 1;
    }
    assert(s@.take(n as int) =~= s@);
    total
}

/// How one character is written inside a TOML basic (double-quoted) string:
/// backslash, quote, newline and carriage return are escaped.
pub open spec fn toml_escape_char(c: char) -> Seq<char> {
    if c == '\\' {
        seq!['\\', '\\']
    } else if c == '"' {
        seq!['\\', '"']
    } else if c == '\n' {
        seq!['\\', 'n']
    } else if c == '\r' {
        seq!['\\', 'r']
    } else {
        seq![c]
    }
}

/// A TOML basic string literal holding exactly `s`.
pub open spec fn toml_quoted(s: Seq<char>) -> Seq<char> {
    seq!['"'] + flat_map_chars(s, |c: char| toml_escape_char(c)) + seq!['"']
}

/// How one character of a Prometheus label value is written: backslash,
/// double quote and newline are escaped, everything else passes through.
pub open spec fn label_escape_char(c: char) -> Seq<char> {
    if c == '\\' {
        seq!['\\', '\\']
    } else if c == '"' {
        seq!['\\', '"']
    } else if c == '\n' {
        seq!['\\', 'n']
    } else {
        seq![c]
    }
}

/// A quoted Prometheus label value holding exactly `s`.
pub open spec fn label_quoted(s: Seq<char>) -> Seq<char> {
    seq!['"'] + flat_map_chars(s, |c: char| label_escape_char(c)) + seq!['"']
}

/// Which escaping table a quoting call uses.
pub enum Quoting {
    Toml,
    PromLabel,
}

pub open spec fn quoting_char(q: Quoting, c: char) -> Seq<char> {
    match q {
        Quoting::Toml => toml_escape_char(c),
        Quoting::PromLabel => label_escape_char(c),
    }
}

pub open spec fn quoted(q: Quoting, s: Seq<char>) -> Seq<char> {
    match q {
        Quoting::Toml => toml_quoted(s),
        Quoting::PromLabel => label_quoted(s),
    }
}

/// Reads an escaped string body back: a backslash followed by `n` or `r`
/// stands for a newline or carriage return, a backslash followed by any
/// other character stands for that character.
pub open spec fn unescape(s: Seq<char>) -> Seq<char>
    decreases s.len(),
{
    if s.len() == 0 {
        Seq::empty()
    } else if s[0] == '\\' && s.len() >= 2 {
        let c = s[1];
        let d = if c == 'n' {
            '\n'
        } else if c == 'r' {
            '\r'
        } else {
            c
        };
        seq![d] + unescape(s.subrange(2, s.len() as int))
    } else {
        seq![s[0]] + unescape(s.drop_first())
    }
}

/// Reading an escaped piece followed by more text gives the character the
/// piece stands for, then the rest read back.
proof fn lemma_unescape_piece(q: Quoting, c: char, rest: Seq<char>)
    ensures
        unescape(quoting_char(q, c) + rest) == seq![c] + unescape(rest),
{
    let p = quoting_char(q, c);
    let t = p + rest;
    if p.len() == 2 {
        assert(t[0] == '\\');
        assert(t.subrange(2, t.len() as int) =~= rest);
    } else {
        assert(p =~= seq![c]);
        assert(t.drop_first() =~= rest);
    }
}

/// Escaping loses nothing: reading the escaped body back gives the
/// string that was escaped, for both escaping tables.
pub proof fn law_unescape_inverts_escape(q: Quoting, s: Seq<char>)
    ensures
        unescape(flat_map_chars(s, |c: char| quoting_char(q, c))) == s,
    decreases s.len(),
{
    if s.len() > 0 {
        law_unescape_inverts_escape(q, s.drop_first());
        lemma_unescape_piece(
            q,
            s[0],
            flat_map_chars(s.drop_first(), |c: char| quoting_char(q, c)),
        );
        assert(seq![s[0]] + s.drop_first() =~= s);
    }
}

/// An escaped body never holds a raw line break, so a quoted value stays
/// on its line.
pub proof fn law_escaped_body_has_no_newline(q: Quoting, s: Seq<char>)
    ensures
        !flat_map_chars(s, |c: char| quoting_char(q, c)).contains('\n'),
    decreases s.len(),
{
    if s.len() > 0 {
        law_escaped_body_has_no_newline(q, s.drop_first());
        let p = quoting_char(q, s[0]);
        let rest = flat_map_chars(s.drop_first(), |c: char| quoting_char(q, c));
        assert(flat_map_chars(s, |c: char| quoting_char(q, c)) == p + rest);
        if (p + rest).contains('\n') {
            let i = choose|i: int| 0 <= i < (p + rest).len() && (p + rest)[i] == '\n';
            if i >= p.len() {
                assert(rest[i - p.len()] == '\n');
            }
        }
    }
}

/// A quoted value reads back whole: it opens and closes with a double
/// quote, and the text between them, unescaped, is the string that was quoted.
/// This holds for the TOML basic strings the configuration writer emits
/// and for the Prometheus label values.
pub proof fn law_quoted_reads_back(q: Quoting, s: Seq<char>)
    ensures
        quoted(q, s).len() >= 2,
        quoted(q, s)[0] == '"',
        quoted(q, s).last() == '"',
        unescape(quoted(q, s).subrange(1, quoted(q, s).len() - 1)) == s,
{
    let f = |c: char| quoting_char(q, c);
    let body = flat_map_chars(s, f);
    law_unescape_inverts_escape(q, s);
    match q {
        Quoting::Toml => {
            assert(f =~= (|c: char| toml_escape_char(c)));
        },
        Quoting::PromLabel => {
            assert(f =~= (|c: char| label_escape_char(c)));
        },
    }
    let t = quoted(q, s);
    assert(t == seq!['"'] + body + seq!['"']);
    assert(t.subrange(1, t.len() - 1) =~= body);
}

/// Appends `s` to `out` between double quotes, escaping each character by
/// the table `q` selects.
pub fn append_quoted(out: &mut String, s: &str, q: Quoting)
    ensures
        final(out)@ == old(out)@ + quoted(q, s@),
{
    let ghost start = out@;
    let ghost tf = |c: char| toml_escape_char(c);
    let ghost lf = |c: char| label_escape_char(c);
    out.append("\"");
    proof {
        reveal_strlit("\"");
    }
    let n = s.unicode_len();
    let mut i: usize = 0;
    while i < n
        invariant
            n == s@.len(),
            i <= n,
            out@ == start + seq!['"'] + flat_map_chars(s@.take(i as int), |c: char| quoting_char(q, c)),
        decreases n - i,
    {
        let c = s.get_char(i);
        let ghost before = out@;
        let toml = match q {
            Quoting::Toml => true,
            Quoting::PromLabel => false,
        };
        if c == '\\' {
            out.append("\\\\");
            proof { reveal_strlit("\\\\"); }
            assert("\\\\"@ =~= seq!['\\', '\\']);
        } else if c == '"' {
            out.append("\\\"");
            proof { reveal_strlit("\\\""); }
            assert("\\\""@ =~= seq!['\\', '"']);
        } else if c == '\n' {
            out.append("\\n");
            proof { reveal_strlit("\\n"); }
            assert("\\n"@ =~= seq!['\\', 'n']);
        } else if c == '\r' && toml {
            out.append("\\r");
            proof { reveal_strlit("\\r"); }
            assert("\\r"@ =~= seq!['\\', 'r']);
        } else {
            out.append(s.substring_char(i, i + 1));
            assert(s@.subrange(i as int, i + 1) =~= seq![c]);
        }
        assert(out@ == before + quoting_char(q, c));
        proof {
            lemma_flat_map_push(s@.take(i as int), c, |c: char| quoting_char(q, c));
            assert(s@.take(i + 1) =~= s@.take(i as int).push(c));
        }
        i = i + 1;
    }
    out.append("\"");
    proof {
        assert(s@.take(n as int) =~= s@);
        match q {
            Quoting::Toml => {
                assert((|c: char| quoting_char(q, c)) =~= tf);
            },
            Quoting::PromLabel => {
                assert((|c: char| quoting_char(q, c)) =~= lf);
            },
        }
    }
}

} // verus!
