use vstd::prelude::*;

verus! {

// ---------------------------------------------------------------------------
// Compile-time diagnostics: structured records, rendered to the reported
// line `[line L] Error at <where>: <message>`.
// ---------------------------------------------------------------------------
/// What the diagnostic points at: the end of the source, a scanner error
/// (which brings its own message), or an offending lexeme.
pub enum DiagWhere {
    AtEnd,
    AtScanError,
    AtLexeme(Vec<u8>),
}

/// One compile-time diagnostic.
pub struct Diagnostic {
    pub line: usize,
    pub at: DiagWhere,
    pub message: Vec<u8>,
}

/// The decimal digits of a number, most significant first.
pub open spec fn spec_dec(n: nat) -> Seq<u8>
    decreases n,
{
    if n < 10 {
        seq![(48 + n) as u8]
    } else {
        spec_dec(n / 10).push((48 + n % 10) as u8)
    }
}

/// Render a number in decimal.
pub fn dec_bytes(n: usize) -> (r: Vec<u8>)
    ensures
        r@ == spec_dec(n as nat),
{
    let mut digits_rev: Vec<u8> = Vec::new();
    let mut m: usize = n;
    loop
        invariant
            spec_dec(n as nat) == spec_dec(m as nat) + digits_rev@.reverse(),
        decreases m,
    {
        let ghost pre = digits_rev@;
        let d: u8 = (m % 10) as u8;
        if m < 10 {
            digits_rev.push(48 + d);
            proof {
                assert(spec_dec(m as nat) =~= seq![(48 + m as nat) as u8]);
                assert(digits_rev@.reverse() =~= seq![(48 + m as nat) as u8] + pre.reverse());
            }
            break ;
        }
        digits_rev.push(48 + d);
        proof {
            assert(spec_dec(m as nat) == spec_dec((m as nat) / 10).push(
                (48 + (m as nat) % 10) as u8,
            ));
            assert(digits_rev@.reverse() =~= seq![(48 + (m as nat) % 10) as u8] + pre.reverse());
            assert(spec_dec((m as nat) / 10) + digits_rev@.reverse() =~= spec_dec(m as nat)
                + pre.reverse());
        }
        m = m / 10;
    }
    let mut r: Vec<u8> = Vec::new();
    let mut i: usize = digits_rev.len();
    while i > 0
        invariant
            0 <= i <= digits_rev@.len(),
            r@ =~= digits_rev@.subrange(i as int, digits_rev@.len() as int).reverse(),
        decreases i,
    {
        i = i - 1;
        r.push(digits_rev[i]);
        proof {
            let tail = digits_rev@.subrange(i + 1, digits_rev@.len() as int);
            let whole = digits_rev@.subrange(i as int, digits_rev@.len() as int);
            assert(whole =~= seq![digits_rev@[i as int]] + tail);
            assert(whole.reverse() =~= tail.reverse().push(digits_rev@[i as int]));
        }
    }
    proof {
        assert(digits_rev@.subrange(0, digits_rev@.len() as int) =~= digits_rev@);
        assert(spec_dec(n as nat) =~= r@);
    }
    r
}

/// The rendered form of a diagnostic:
/// `[line L] Error at <where>: <message>` with `at end` at the end of the
/// source, no location for a scanner error, and the lexeme otherwise.
pub open spec fn spec_render(d: Diagnostic) -> Seq<u8> {
    let head = seq![91u8, 108u8, 105u8, 110u8, 101u8, 32u8]  // "[line "
     + spec_dec(d.line as nat) + seq![93u8, 32u8, 69u8, 114u8, 114u8, 111u8, 114u8]  // "] Error"
    ;
    let place = match d.at {
        DiagWhere::AtEnd => seq![32u8, 97u8, 116u8, 32u8, 101u8, 110u8, 100u8],  // " at end"
        DiagWhere::AtScanError => Seq::<u8>::empty(),
        DiagWhere::AtLexeme(lex) => seq![32u8, 97u8, 116u8, 32u8] + lex@,  // " at <lexeme>"
    };
    head + place + seq![58u8, 32u8]  // ": "
     + d.message@
}

/// Render a diagnostic for the error stream.
pub fn render_diagnostic(d: &Diagnostic) -> (r: Vec<u8>)
    ensures
        r@ == spec_render(*d),
{
    let mut r: Vec<u8> = vec![91u8, 108u8, 105u8, 110u8, 101u8, 32u8];
    let mut line = dec_bytes(d.line);
    r.append(&mut line);
    let mut close = vec![93u8, 32u8, 69u8, 114u8, 114u8, 111u8, 114u8];
    r.append(&mut close);
    match &d.at {
        DiagWhere::AtEnd => {
            let mut place = vec![32u8, 97u8, 116u8, 32u8, 101u8, 110u8, 100u8];
            r.append(&mut place);
        },
        DiagWhere::AtScanError => {},
        DiagWhere::AtLexeme(lex) => {
            let mut place = vec![32u8, 97u8, 116u8, 32u8];
            r.append(&mut place);
            let mut lexb = vstd::slice::slice_to_vec(lex.as_slice());
            r.append(&mut lexb);
        },
    }
    let mut colon = vec![58u8, 32u8];
    r.append(&mut colon);
    let mut msg = vstd::slice::slice_to_vec(d.message.as_slice());
    r.append(&mut msg);
    proof {
        assert(r@ =~= spec_render(*d));
    }
    r
}

} // verus!
