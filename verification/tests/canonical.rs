use typsastra_docx_ir::{
    canonicalize_environment, canonicalize_metadata, DocumentLayout, FontInfo, FontSubstitution,
    GeneratorInfo, LayoutEngineInfo, LayoutEnvironment, PlatformInfo, SourceInfo,
};

fn font(family: &str, postscript: Option<&str>, face_index: Option<u32>) -> FontInfo {
    FontInfo {
        family: family.into(),
        postscript_name: postscript.map(Into::into),
        version: None,
        file_sha256: None,
        face_index,
    }
}

fn substitution(requested: &str, resolved: &str) -> FontSubstitution {
    FontSubstitution {
        requested_family: requested.into(),
        resolved_family: resolved.into(),
        resolved_postscript_name: None,
    }
}

fn environment(fonts: Vec<FontInfo>, substitutions: Vec<FontSubstitution>) -> LayoutEnvironment {
    LayoutEnvironment {
        engine: LayoutEngineInfo { name: "engine".into(), version: "1".into() },
        platform: PlatformInfo { os: "linux".into(), architecture: "x86_64".into(), version: None },
        fonts,
        font_substitutions: substitutions,
    }
}

#[test]
fn fonts_sort_bytewise_and_drop_exact_duplicates() {
    let mut env = environment(
        vec![
            font("aptos", None, None),
            font("Aptos", Some("Aptos-Bold"), Some(1)),
            font("Aptos", None, Some(0)),
            font("Aptos", Some("Aptos-Bold"), Some(1)),
            font("Aptos", Some("Aptos-Bold"), Some(0)),
            font("Aptos", None, None),
        ],
        vec![substitution("Calibri", "Carlito"), substitution("Arial", "Liberation Sans"), substitution("Calibri", "Carlito")],
    );
    canonicalize_environment(&mut env);
    assert_eq!(
        env.fonts,
        vec![
            font("Aptos", None, None),
            font("Aptos", None, Some(0)),
            font("Aptos", Some("Aptos-Bold"), Some(0)),
            font("Aptos", Some("Aptos-Bold"), Some(1)),
            font("aptos", None, None),
        ]
    );
    assert_eq!(
        env.font_substitutions,
        vec![substitution("Arial", "Liberation Sans"), substitution("Calibri", "Carlito")]
    );
}

#[test]
fn canonical_font_order_is_a_fixed_point() {
    let mut env = environment(
        vec![font("b", None, None), font("a", None, None), font("é", None, None), font("z", None, None)],
        Vec::new(),
    );
    canonicalize_environment(&mut env);
    let once = env.clone();
    canonicalize_environment(&mut env);
    assert_eq!(env, once);
    assert_eq!(
        env.fonts,
        vec![font("a", None, None), font("b", None, None), font("z", None, None), font("é", None, None)]
    );
}

#[test]
fn documents_without_environment_are_unchanged() {
    let mut document = DocumentLayout::new(
        GeneratorInfo { name: "test".into(), version: "1".into() },
        SourceInfo { path: "test.docx".into(), byte_length: 1 },
        Vec::new(),
    );
    let before = document.clone();
    canonicalize_metadata(&mut document);
    assert_eq!(document, before);
}
