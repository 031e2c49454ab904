use lox_rc::chunk::Chunk;
use lox_rc::compiler::{get_rule, Compiler, InfixFn, Local, LocalTracking, ParseRule, Precedence, PrefixFn};
use lox_rc::diag::{dec_bytes, render_diagnostic, DiagWhere, Diagnostic};
use lox_rc::opcode::OpCode;
use lox_rc::scanner::Scanner;
use lox_rc::token::{Token, TokenType};
use lox_rc::value::{ObjString, Object, ValueType};
use lox_rc::vm::Globals;
use lox_rc::InterpretError;

fn scan_kinds(source: &str) -> Vec<TokenType> {
    let mut scanner = Scanner::new(source.as_bytes().to_vec());
    let mut kinds = Vec::new();
    loop {
        let t = scanner.scan_token();
        let done = t.token_type == TokenType::EOF;
        kinds.push(t.token_type);
        if done {
            return kinds;
        }
    }
}

#[test]
fn scanner_tokenizes_declaration() {
    assert_eq!(
        scan_kinds("var x = 1;"),
        vec![
            TokenType::VAR,
            TokenType::IDENTIFIER,
            TokenType::EQUAL,
            TokenType::NUMBER,
            TokenType::SEMICOLON,
            TokenType::EOF
        ]
    );
}

#[test]
fn scanner_two_char_operators() {
    assert_eq!(
        scan_kinds("! != = == < <= > >="),
        vec![
            TokenType::BANG,
            TokenType::BANGEQUAL,
            TokenType::EQUAL,
            TokenType::EQUALEQUAL,
            TokenType::LESS,
            TokenType::LESSEQUAL,
            TokenType::GREATER,
            TokenType::GREATEREQUAL,
            TokenType::EOF
        ]
    );
}

#[test]
fn scanner_keywords_and_identifiers() {
    assert_eq!(
        scan_kinds("and class else false for fun if nil or print return super this true var while andx"),
        vec![
            TokenType::AND,
            TokenType::CLASS,
            TokenType::ELSE,
            TokenType::FALSE,
            TokenType::FOR,
            TokenType::FUN,
            TokenType::IF,
            TokenType::NIL,
            TokenType::OR,
            TokenType::PRINT,
            TokenType::RETURN,
            TokenType::SUPER,
            TokenType::THIS,
            TokenType::TRUE,
            TokenType::VAR,
            TokenType::WHILE,
            TokenType::IDENTIFIER,
            TokenType::EOF
        ]
    );
}

#[test]
fn scanner_string_lexeme_excludes_quotes() {
    let mut scanner = Scanner::new(b"\"hi\"".to_vec());
    let t = scanner.scan_token();
    assert_eq!(t.token_type, TokenType::STRING);
    assert_eq!(t.lexeme, b"hi".to_vec());
}

#[test]
fn scanner_number_lexeme_includes_fraction() {
    let mut scanner = Scanner::new(b"12.75".to_vec());
    let t = scanner.scan_token();
    assert_eq!(t.token_type, TokenType::NUMBER);
    assert_eq!(t.lexeme, b"12.75".to_vec());
}

#[test]
fn scanner_number_stops_at_bare_dot() {
    let mut scanner = Scanner::new(b"12.".to_vec());
    let t = scanner.scan_token();
    assert_eq!(t.token_type, TokenType::NUMBER);
    assert_eq!(t.lexeme, b"12".to_vec());
    let dot = scanner.scan_token();
    assert_eq!(dot.token_type, TokenType::DOT);
}

#[test]
fn scanner_eof_is_idempotent() {
    let mut scanner = Scanner::new(b"".to_vec());
    assert_eq!(scanner.scan_token().token_type, TokenType::EOF);
    assert_eq!(scanner.scan_token().token_type, TokenType::EOF);
}

#[test]
fn scanner_counts_lines() {
    let mut scanner = Scanner::new(b"1\n2\n3".to_vec());
    assert_eq!(scanner.scan_token().line, 1);
    assert_eq!(scanner.scan_token().line, 2);
    assert_eq!(scanner.scan_token().line, 3);
}

#[test]
fn scanner_unexpected_character() {
    let mut scanner = Scanner::new(b"@".to_vec());
    let t = scanner.scan_token();
    assert_eq!(t.token_type, TokenType::ERROR);
    assert_eq!(t.lexeme, b"Unexpected character.".to_vec());
}

#[test]
fn token_new_and_equality_by_name() {
    let a = Token::new(TokenType::IDENTIFIER, b"abc".to_vec(), 3);
    let b = Token::new(TokenType::IDENTIFIER, b"abc".to_vec(), 9);
    let c = Token::new(TokenType::IDENTIFIER, b"abd".to_vec(), 3);
    assert_eq!(a.token_type, TokenType::IDENTIFIER);
    assert_eq!(a.line, 3);
    assert!(a.is_equal(&b));
    assert!(!a.is_equal(&c));
    let d = a.clone_token();
    assert!(d.is_equal(&a));
    assert_eq!(d.line, 3);
}

#[test]
fn opcode_bytes_round_trip() {
    let ops = [
        OpCode::CONSTANT,
        OpCode::NEGATE,
        OpCode::RETURN,
        OpCode::ADD,
        OpCode::SUBTRACT,
        OpCode::MULTIPLY,
        OpCode::DIVIDE,
        OpCode::NIL,
        OpCode::TRUE,
        OpCode::FALSE,
        OpCode::NOT,
        OpCode::EQUAL,
        OpCode::GREATER,
        OpCode::LESS,
        OpCode::PRINT,
        OpCode::POP,
        OpCode::DefineGlobal,
        OpCode::GetGlobal,
        OpCode::SetGlobal,
        OpCode::GetLocal,
        OpCode::SetLocal,
        OpCode::JumpIfFalse,
        OpCode::JUMP,
        OpCode::LOOP,
    ];
    for (i, op) in ops.iter().enumerate() {
        assert_eq!(op.as_byte() as usize, i);
        assert_eq!(OpCode::from_byte(op.as_byte()), Ok(*op));
    }
    assert_eq!(OpCode::from_byte(24), Err(InterpretError::CompileError));
    assert_eq!(OpCode::from_byte(255), Err(InterpretError::CompileError));
}

#[test]
fn chunk_keeps_code_and_lines_parallel() {
    let mut chunk = Chunk::new();
    assert_eq!(chunk.op_codes_len(), 0);
    chunk.write(7, 1);
    chunk.write(8, 2);
    assert_eq!(chunk.op_codes_len(), 2);
    assert_eq!(chunk.op_codes_at(0), 7);
    assert_eq!(chunk.op_codes_at(1), 8);
    assert_eq!(chunk.line_from_offset(0), 1);
    assert_eq!(chunk.line_from_offset(1), 2);
    assert_eq!(chunk.op_codes().len(), 2);
    chunk.patch(0, 9);
    assert_eq!(chunk.op_codes_at(0), 9);
    assert_eq!(chunk.line_from_offset(0), 1);
}

#[test]
fn chunk_constants_indexing() {
    let mut chunk = Chunk::new();
    assert_eq!(chunk.constants_len(), 0);
    let i = chunk.add_constant(ValueType::Nil);
    let j = chunk.add_constant(ValueType::Bool(true));
    assert_eq!(i, 0);
    assert_eq!(j, 1);
    assert_eq!(chunk.constants_len(), 2);
    assert!(matches!(chunk.get_constant(0), ValueType::Nil));
    assert!(matches!(chunk.get_constant(1), ValueType::Bool(true)));
}

#[test]
fn value_truthiness() {
    assert!(ValueType::Nil.is_falsey());
    assert!(ValueType::Bool(false).is_falsey());
    assert!(!ValueType::Bool(true).is_falsey());
    assert!(!ValueType::Number(0).is_falsey());
    let s = ValueType::Obj(Object::ObjString(ObjString::new(Vec::new())));
    assert!(!s.is_falsey());
    assert!(s.is_obj_type());
    assert!(!ValueType::Nil.is_obj_type());
}

#[test]
fn value_equality_by_kind_and_content() {
    let a = ValueType::Obj(Object::ObjString(ObjString::new(b"ab".to_vec())));
    let b = ValueType::Obj(Object::ObjString(ObjString::new(b"ab".to_vec())));
    let c = ValueType::Obj(Object::ObjString(ObjString::new(b"ac".to_vec())));
    assert!(a.equals(&b));
    assert!(!a.equals(&c));
    assert!(ValueType::Nil.equals(&ValueType::Nil));
    assert!(!ValueType::Nil.equals(&ValueType::Bool(false)));
    assert!(ValueType::Bool(true).equals(&ValueType::Bool(true)));
    assert!(!ValueType::Bool(true).equals(&ValueType::Bool(false)));
}

#[test]
fn value_printable_forms() {
    assert_eq!(ValueType::Nil.printable(), b"nil".to_vec());
    assert_eq!(ValueType::Bool(true).printable(), b"true".to_vec());
    assert_eq!(ValueType::Bool(false).printable(), b"false".to_vec());
    let s = ValueType::Obj(Object::ObjString(ObjString::new(b"raw text".to_vec())));
    assert_eq!(s.printable(), b"raw text".to_vec());
}

#[test]
fn objstring_accessors() {
    let s = ObjString::new(b"xyz".to_vec());
    assert_eq!(s.bytes(), &b"xyz".to_vec());
    assert_eq!(s.into_bytes(), b"xyz".to_vec());
}

#[test]
fn decimal_rendering() {
    assert_eq!(dec_bytes(0), b"0".to_vec());
    assert_eq!(dec_bytes(7), b"7".to_vec());
    assert_eq!(dec_bytes(10), b"10".to_vec());
    assert_eq!(dec_bytes(12345), b"12345".to_vec());
}

#[test]
fn diagnostic_rendering() {
    let d = Diagnostic { line: 12, at: DiagWhere::AtEnd, message: b"boom".to_vec() };
    assert_eq!(render_diagnostic(&d), b"[line 12] Error at end: boom".to_vec());
    let d2 = Diagnostic {
        line: 3,
        at: DiagWhere::AtLexeme(b"x".to_vec()),
        message: b"bad".to_vec(),
    };
    assert_eq!(render_diagnostic(&d2), b"[line 3] Error at x: bad".to_vec());
    let d3 = Diagnostic { line: 1, at: DiagWhere::AtScanError, message: b"msg".to_vec() };
    assert_eq!(render_diagnostic(&d3), b"[line 1] Error: msg".to_vec());
}

#[test]
fn precedence_ladder() {
    assert_eq!(Precedence::NONE.level(), 0);
    assert_eq!(Precedence::ASSIGNMENT.level(), 1);
    assert_eq!(Precedence::PRIMARY.level(), 10);
    assert_eq!(Precedence::from_level(6), Precedence::TERM);
    assert_eq!(Precedence::from_level(99), Precedence::NONE);
    assert_eq!(Precedence::TERM.one_higher(), Precedence::FACTOR);
    assert_eq!(Precedence::FACTOR.one_higher(), Precedence::UNARY);
}

#[test]
fn rule_table_rows() {
    let plus = get_rule(TokenType::PLUS);
    assert!(plus.prefix.is_none());
    assert_eq!(plus.infix, Some(InfixFn::Binary));
    assert_eq!(plus.precedence, Precedence::TERM);
    let minus = get_rule(TokenType::MINUS);
    assert_eq!(minus.prefix, Some(PrefixFn::Unary));
    assert_eq!(minus.infix, Some(InfixFn::Binary));
    assert_eq!(minus.precedence, Precedence::TERM);
    let star = get_rule(TokenType::STAR);
    assert_eq!(star.precedence, Precedence::FACTOR);
    let eq = get_rule(TokenType::EQUALEQUAL);
    assert_eq!(eq.precedence, Precedence::EQUALITY);
    let num = get_rule(TokenType::NUMBER);
    assert_eq!(num.prefix, Some(PrefixFn::NumberLit));
    let none = get_rule(TokenType::SEMICOLON);
    assert!(none.prefix.is_none() && none.infix.is_none());
    assert_eq!(none.precedence, Precedence::NONE);
    let built = ParseRule::new(Some(PrefixFn::Grouping), None, Precedence::NONE);
    assert_eq!(built.prefix, Some(PrefixFn::Grouping));
    let dflt = ParseRule::default();
    assert!(dflt.prefix.is_none());
}

#[test]
fn local_tracking_scopes() {
    let mut lt = LocalTracking::new();
    assert_eq!(*lt.depth(), 0);
    lt.begin();
    assert_eq!(*lt.depth(), 1);
    lt.begin();
    assert_eq!(*lt.depth(), 2);
    lt.end();
    assert_eq!(*lt.depth(), 1);
    let tok = Token::new(TokenType::IDENTIFIER, b"x".to_vec(), 1);
    lt.add_local_at_idx(Local { name: tok, depth: None }, 0);
    lt.end();
    assert_eq!(*lt.depth(), 0);
}

#[test]
fn globals_define_read_assign() {
    let mut g = Globals::new();
    assert!(g.read(&b"a".to_vec()).is_none());
    g.define(b"a".to_vec(), ValueType::Number(0));
    assert!(g.read(&b"a".to_vec()).is_some());
    assert!(g.assign(&b"a".to_vec(), ValueType::Bool(true)));
    assert!(matches!(g.read(&b"a".to_vec()), Some(ValueType::Bool(true))));
    assert!(!g.assign(&b"b".to_vec(), ValueType::Nil));
    assert!(g.read(&b"b".to_vec()).is_none());
    g.define(b"a".to_vec(), ValueType::Nil);
    assert!(matches!(g.read(&b"a".to_vec()), Some(ValueType::Nil)));
}

#[test]
fn compiler_reports_success_and_failure() {
    let mut c = Compiler::new(b"print 1;".to_vec());
    assert!(c.compile());
    let (chunk, diags) = c.into_parts();
    assert!(diags.is_empty());
    // CONSTANT idx PRINT RETURN
    assert_eq!(chunk.op_codes_len(), 4);
    assert_eq!(chunk.op_codes_at(0), OpCode::CONSTANT.as_byte());
    assert_eq!(chunk.op_codes_at(2), OpCode::PRINT.as_byte());
    assert_eq!(chunk.op_codes_at(3), OpCode::RETURN.as_byte());

    let mut bad = Compiler::new(b"print ;".to_vec());
    assert!(!bad.compile());
    assert!(!bad.diagnostics().is_empty());
}

#[test]
fn compiled_jump_operands_land_in_code() {
    let mut c = Compiler::new(b"if (1 < 2) print 1; else print 2;".to_vec());
    assert!(c.compile());
    let (chunk, _) = c.into_parts();
    // Walk the instruction stream and check every jump target by hand.
    let n = chunk.op_codes_len();
    let mut i = 0;
    while i < n {
        let op = OpCode::from_byte(chunk.op_codes_at(i)).unwrap();
        let width = match op {
            OpCode::CONSTANT
            | OpCode::DefineGlobal
            | OpCode::GetGlobal
            | OpCode::SetGlobal
            | OpCode::GetLocal
            | OpCode::SetLocal => 2,
            OpCode::JUMP | OpCode::JumpIfFalse => {
                let hi = chunk.op_codes_at(i + 1) as usize;
                let lo = chunk.op_codes_at(i + 2) as usize;
                let target = i + 3 + (hi << 8 | lo);
                assert!(target <= n, "jump target outside the code");
                3
            },
            _ => 1,
        };
        i += width;
    }
}

#[test]
fn pool_keeps_growing_past_the_overflow_error() {
    // The value is appended first; only then is the oversized index
    // reported, so a failed compile still shows the whole pool.
    let mut source = String::new();
    for i in 0..300 {
        source.push_str(&format!("var w{} = {};", i, i));
    }
    let mut c = Compiler::new(source.into_bytes());
    assert!(!c.compile());
    let (chunk, diags) = c.into_parts();
    assert!(chunk.constants_len() > 256);
    assert!(diags.iter().any(|d| d.message == b"Too many constants in one chunk." as &[u8]));
}
