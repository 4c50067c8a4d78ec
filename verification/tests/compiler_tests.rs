use sieve_engine::ast::{EnvelopePart, Instr, Test};
use sieve_engine::compiler::compile;
use sieve_engine::errors::CompileFault;

fn compile_ok(src: &[u8]) -> Vec<Instr> {
    compile(&src.to_vec(), &Vec::new()).unwrap().instrs
}

fn compile_err(src: &[u8]) -> CompileFault {
    compile(&src.to_vec(), &Vec::new()).unwrap_err()
}

#[test]
fn compiles_simple_commands() {
    let instrs = compile_ok(b"require \"fileinto\"; fileinto \"Reports\"; addflag \"$seen\"; keep; stop;");
    assert_eq!(
        instrs,
        vec![
            Instr::FileInto(b"Reports".to_vec()),
            Instr::AddKeyword(b"$seen".to_vec()),
            Instr::Keep,
            Instr::Stop,
        ]
    );
}

#[test]
fn compiles_if_elsif_else() {
    let instrs = compile_ok(
        b"if header \"subject\" \"a\" { discard; } elsif envelope \"from\" \"x\" { keep; } else { reject \"no\"; }",
    );
    assert_eq!(instrs.len(), 1);
    match &instrs[0] {
        Instr::If(t, then_b, else_b) => {
            assert_eq!(*t, Test::Header(b"subject".to_vec(), b"a".to_vec()));
            assert_eq!(*then_b, vec![Instr::Discard]);
            assert_eq!(else_b.len(), 1);
            match &else_b[0] {
                Instr::If(t2, then2, else2) => {
                    assert_eq!(*t2, Test::Envelope(EnvelopePart::Sender, b"x".to_vec()));
                    assert_eq!(*then2, vec![Instr::Keep]);
                    assert_eq!(*else2, vec![Instr::Reject(b"no".to_vec())]);
                }
                other => panic!("expected nested if, got {:?}", other),
            }
        }
        other => panic!("expected if, got {:?}", other),
    }
}

#[test]
fn whitespace_is_free() {
    let a = compile_ok(b"keep;");
    let b = compile_ok(b"  \r\n keep \t ; \n");
    assert_eq!(a, b);
}

#[test]
fn rejects_unknown_command() {
    assert_eq!(compile_err(b"frobnicate;"), CompileFault::UnknownCommand);
}

#[test]
fn rejects_unterminated_string() {
    assert_eq!(compile_err(b"fileinto \"oops"), CompileFault::UnterminatedString);
}

#[test]
fn rejects_unsupported_capability() {
    assert_eq!(
        compile_err(b"require \"timetravel\";"),
        CompileFault::UnsupportedCapability
    );
    // every supported one passes
    assert!(compile(
        &b"require \"fileinto\"; require \"imap4flags\"; require \"reject\"; require \"envelope\"; require \"duplicate\"; require \"include\"; require \"enotify\"; require \"mailbox\";".to_vec(),
        &Vec::new()
    ).is_ok());
}

#[test]
fn rejects_bad_mailbox_path() {
    assert_eq!(compile_err(b"fileinto \"/lead\";"), CompileFault::BadMailboxPath);
    assert_eq!(compile_err(b"fileinto \"trail/\";"), CompileFault::BadMailboxPath);
    assert_eq!(compile_err(b"fileinto \"a//b\";"), CompileFault::BadMailboxPath);
    assert_eq!(compile_err(b"fileinto \"\";"), CompileFault::BadMailboxPath);
}

#[test]
fn rejects_unknown_include_target() {
    assert_eq!(
        compile_err(b"include \"missing\";"),
        CompileFault::UnknownIncludeTarget
    );
    let visible = vec![b"other".to_vec()];
    assert!(compile(&b"include \"other\";".to_vec(), &visible).is_ok());
}

#[test]
fn rejects_bad_character_and_stray_tokens() {
    assert_eq!(compile_err(b"keep; %"), CompileFault::BadCharacter);
    assert_eq!(compile_err(b"keep; }"), CompileFault::UnexpectedToken);
    assert_eq!(compile_err(b"if true { keep;"), CompileFault::UnexpectedEnd);
    assert_eq!(compile_err(b"keep"), CompileFault::UnexpectedEnd);
}

#[test]
fn rejects_bad_envelope_part() {
    assert_eq!(
        compile_err(b"if envelope \"sideways\" \"x\" { keep; }"),
        CompileFault::UnexpectedToken
    );
}
