use brainwasm::parse::parse;

#[test]
fn generates_exact_c() {
    let c = parse("+>-[<,.]").unwrap().into_c();
    let expected = [
        "#include <stdio.h>\n\n",
        "unsigned char mem[65536] = {0};\nunsigned short p = 0;\n\n",
        "int main(int argc, char **argv) {\n",
        "    mem[p] += 1;\n",
        "    p += 1;\n",
        "    mem[p] -= 1;\n",
        "    while (mem[p]) {\n",
        "        p -= 1;\n",
        "        { int c = getchar(); mem[p] = c == EOF ? 0 : c; }\n",
        "        putchar(mem[p]);\n",
        "    }\n",
        "}\n",
    ]
    .concat();
    assert_eq!(c, expected);
}

#[test]
fn set_constant_and_large_deltas() {
    let c = parse("[-]++++++++++++>>>>>>>>>>>>").unwrap().into_c();
    assert!(c.contains("    mem[p] = 12;\n"));
    assert!(c.contains("    p += 12;\n"));
}

#[test]
fn generation_is_deterministic() {
    let src = "++[>+[-]<-]>.";
    let a = parse(src).unwrap().into_c();
    let b = parse(src).unwrap().into_c();
    assert_eq!(a, b);
}

#[test]
fn each_loop_is_one_while() {
    let c = parse("[>[<]]").unwrap().into_c();
    assert_eq!(c.matches("while (mem[p]) {").count(), 2);
    assert!(c.contains("    while (mem[p]) {\n        p += 1;\n        while (mem[p]) {\n            p -= 1;\n        }\n    }\n"));
}

#[test]
fn wasm_lowering_yields_empty_module() {
    assert_eq!(parse("+[>.]").unwrap().into_wasm(), Ok(vec![]));
}

#[test]
fn generated_cursor_and_cells_wrap() {
    let c = parse("<-.").unwrap().into_c();
    assert!(c.contains("unsigned char mem[65536] = {0};\n"));
    assert!(c.contains("unsigned short p = 0;\n"));
    assert!(c.contains("    p -= 1;\n    mem[p] -= 1;\n    putchar(mem[p]);\n"));
}

#[test]
fn cloned_tree_generates_same_text() {
    let ast = parse("+[>,.<-]").unwrap();
    let copy = ast.clone();
    assert_eq!(copy, ast);
    assert_eq!(copy.into_c(), ast.into_c());
}
