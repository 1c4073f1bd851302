use packobf::shader_minifier::minifier::{
    compound_assignment, generate_short_name, is_builtin_name, normalize_swizzle, optimize_string,
    rewrites_swizzle, vector_constructor_arity, AssignOp, BinaryOp, Minifier,
};

#[test]
fn letter_names_are_base_26() {
    assert_eq!(generate_short_name(0), "a");
    assert_eq!(generate_short_name(25), "z");
    assert_eq!(generate_short_name(26), "ab");
    assert_eq!(generate_short_name(27), "bb");
    assert_eq!(generate_short_name(26 * 26), "aab");
}

#[test]
fn letter_names_are_distinct() {
    let mut seen = std::collections::HashSet::new();
    for i in 0..3000 {
        assert!(seen.insert(generate_short_name(i)));
    }
}

#[test]
fn swizzles_use_xyzw() {
    assert_eq!(normalize_swizzle("rgba"), "xyzw");
    assert_eq!(normalize_swizzle("stpq"), "xyzw");
    assert_eq!(normalize_swizzle("bgr"), "zyx");
    assert_eq!(normalize_swizzle("xq"), "xw");
    assert!(rewrites_swizzle("rgb"));
    assert!(rewrites_swizzle("sq"));
    assert!(!rewrites_swizzle("xyz"));
    assert!(!rewrites_swizzle("rx"));
    assert!(!rewrites_swizzle(""));
}

#[test]
fn printed_glsl_loses_its_spaces() {
    assert_eq!(optimize_string("void main ( ) { x = f ( a , b ) ; }"), "void main(){x = f(a ,b);}");
    assert_eq!(optimize_string("  a \t\t b  "), "a b");
    assert_eq!(optimize_string(""), "");
    assert_eq!(optimize_string("   "), "");
}

#[test]
fn vector_constructors_and_compound_operators() {
    assert_eq!(vector_constructor_arity("vec2"), Some(2));
    assert_eq!(vector_constructor_arity("bvec3"), Some(3));
    assert_eq!(vector_constructor_arity("uvec4"), Some(4));
    assert_eq!(vector_constructor_arity("mat4"), None);
    assert_eq!(compound_assignment(BinaryOp::Add), Some(AssignOp::Add));
    assert_eq!(compound_assignment(BinaryOp::BitXor), Some(AssignOp::Xor));
    assert_eq!(compound_assignment(BinaryOp::RShift), Some(AssignOp::RShift));
    assert_eq!(compound_assignment(BinaryOp::Lt), None);
    assert_eq!(compound_assignment(BinaryOp::And), None);
}

#[test]
fn builtin_names_start_with_gl() {
    assert!(is_builtin_name("gl_Position"));
    assert!(!is_builtin_name("glow"));
    assert!(!is_builtin_name("position"));
}

#[test]
fn locals_and_functions_get_short_names() {
    let mut m = Minifier::new();
    m.register_local("color".to_string());
    m.register_local("uv".to_string());
    m.register_local("color".to_string());
    assert_eq!(m.local_name("color").as_deref(), Some("a"));
    assert_eq!(m.local_name("uv").as_deref(), Some("b"));
    assert_eq!(m.local_name("other"), None);
    m.generate_function_mapping(&vec!["main".to_string(), "shade".to_string(), "blend".to_string(), "shade".to_string()]);
    assert_eq!(m.function_name("main"), None);
    assert_eq!(m.function_name("shade").as_deref(), Some("a"));
    assert_eq!(m.function_name("blend").as_deref(), Some("b"));
}

#[test]
fn macro_bodies_use_short_names() {
    let mut m = Minifier::new();
    m.register_local("value".to_string());
    m.register_local("v".to_string());
    // `value` (longer) is replaced before `v`; whole words only
    assert_eq!(m.rewrite_macro_body("value + v * vv"), "a + b * vv");
}
