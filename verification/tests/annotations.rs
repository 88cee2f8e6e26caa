use grindlang::annotations::{parse_doc_block, parse_type_ann, DocComment, TypeAnn};
use grindlang::Span;

fn t(s: &str) -> TypeAnn {
    parse_type_ann(s).unwrap_or_else(|e| panic!("`{s}` should parse: {e}"))
}

#[test]
fn scalars_and_postfix() {
    assert_eq!(t("number"), TypeAnn::Named("number".into()));
    assert_eq!(
        t("string?"),
        TypeAnn::Optional(Box::new(TypeAnn::Named("string".into())))
    );
    assert_eq!(
        t("number[]"),
        TypeAnn::Array(Box::new(TypeAnn::Named("number".into())))
    );
    // Postfix is left-to-right: `number[]?` is an optional array.
    assert_eq!(
        t("number[]?"),
        TypeAnn::Optional(Box::new(TypeAnn::Array(Box::new(TypeAnn::Named(
            "number".into()
        )))))
    );
}

#[test]
fn map_and_record() {
    assert_eq!(
        t("{ [string]: number }"),
        TypeAnn::MapOf(Box::new(TypeAnn::Named("number".into())))
    );
    assert_eq!(
        t("{ name: string, age: number }"),
        TypeAnn::Record(vec![
            ("name".into(), TypeAnn::Named("string".into())),
            ("age".into(), TypeAnn::Named("number".into())),
        ])
    );
    // Trailing comma and a nested optional field.
    assert_eq!(
        t("{ hp: number, tag: string?, }"),
        TypeAnn::Record(vec![
            ("hp".into(), TypeAnn::Named("number".into())),
            (
                "tag".into(),
                TypeAnn::Optional(Box::new(TypeAnn::Named("string".into())))
            ),
        ])
    );
}

#[test]
fn malformed_is_rejected() {
    assert!(parse_type_ann("number[").is_err());
    assert!(parse_type_ann("{ x number }").is_err());
    assert!(parse_type_ann("{}").is_err());
    assert!(parse_type_ann("{ [number]: string }").is_err());
    assert!(parse_type_ann("number number").is_err());
    assert!(parse_type_ann("").is_err());
}

#[test]
fn doc_block_extracts_directives() {
    let sp = Span::new(0, 0);
    let docs = vec![
        DocComment {
            span: sp,
            text: " @param base number".into(),
        },
        DocComment {
            span: sp,
            text: " a free-form description line".into(),
        },
        DocComment {
            span: sp,
            text: " @return number".into(),
        },
    ];
    let (ann, diags) = parse_doc_block(&docs);
    assert!(diags.is_empty());
    assert_eq!(ann.params.len(), 1);
    assert_eq!(ann.params[0].name.node, "base");
    assert_eq!(ann.params[0].ty.node, TypeAnn::Named("number".into()));
    assert_eq!(ann.ret.as_ref().unwrap().node, TypeAnn::Named("number".into()));
}

#[test]
fn malformed_param_directive_reports() {
    let docs = vec![DocComment {
        span: Span::new(0, 0),
        text: " @param x notatype!".into(),
    }];
    let (_, diags) = parse_doc_block(&docs);
    assert_eq!(diags.len(), 1);
    assert_eq!(diags[0].code, "E0110");
}
