use grindlang::ResolveConfig;

#[test]
fn rejected_constructs_report_expected_codes() {
    let cases: &[(&str, &str)] = &[
        ("local g = 1", "E0103"),                               // top-level local
        ("doThing()", "E0104"),                                 // top-level statement
        ("function f() repeat until true end", "E0201"),        // repeat/until
        ("function f(...) end", "E0200"),                       // varargs
        ("function f() ::lbl:: end", "E0202"),                  // labels/goto
        ("function f(t) for x in each(t) do end end", "E0203"), // bad iterator
    ];
    for (src, code) in cases {
        let err = grindlang::parse(src).unwrap_err();
        assert!(
            err.0.iter().any(|d| d.code == *code),
            "src {src:?} expected code {code}, got {:?}",
            err.0.iter().map(|d| d.code).collect::<Vec<_>>()
        );
    }
}

#[test]
fn constraint_violations_report_expected_codes() {
    let cfg = ResolveConfig::default();
    let cases: &[(&str, &str)] = &[
        ("function f() return ghost end", "E0300"), // free global
        ("K = 1\nfunction f() K = 2 end", "E0302"), // assign to const
        ("function f() break end", "E0306"),        // break outside loop
        ("X = f()", "E0303"),                       // non-constant const RHS
        ("function f() end\nfunction f() end", "E0305"), // duplicate decl
        ("function math() end", "E0304"),           // shadow builtin
        ("function f() return ipairs end", "E0301"), // ipairs as value
    ];
    for (src, code) in cases {
        let err = grindlang::check(src, &cfg).unwrap_err();
        assert!(
            err.0.iter().any(|d| d.code == *code),
            "src {src:?} expected {code}, got {:?}",
            err.0.iter().map(|d| d.code).collect::<Vec<_>>()
        );
    }
}
