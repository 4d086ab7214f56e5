use spark_cli::code::{extract_code_blocks, choose_best_block, guess_ext_from_lang, plan_code_writes};

#[test]
fn test_extract_single_block() {
    let s = "here\n```rust\nfn main(){}\n```\nend";
    let blocks = extract_code_blocks(s);
    assert_eq!(blocks.len(), 1);
    assert_eq!(blocks[0].language.as_deref(), Some("rust"));
}

#[test]
fn test_choose_best_by_lang() {
    let s = "```python\nprint('hi')\n```\n```rust\nfn main(){}\n```";
    let blocks = extract_code_blocks(s);
    let best = choose_best_block(&blocks, &["rust"]).unwrap();
    assert!(best.content.contains("fn main"));
}

#[test]
fn test_extract_filename_info() {
    let s = "```main.py\nprint('hi')\n```";
    let blocks = extract_code_blocks(s);
    assert_eq!(blocks.len(), 1);
    assert_eq!(blocks[0].language, None);
    assert_eq!(blocks[0].filename.as_deref(), Some("main.py"));
    assert_eq!(blocks[0].content, "print('hi')\n");
}

#[test]
fn test_extract_no_blocks() {
    assert_eq!(extract_code_blocks("no fences here").len(), 0);
    assert_eq!(extract_code_blocks("```unclosed\nbody").len(), 0);
}

#[test]
fn test_extract_empty_info() {
    let s = "```\nplain\n```";
    let blocks = extract_code_blocks(s);
    assert_eq!(blocks.len(), 1);
    assert_eq!(blocks[0].language, None);
    assert_eq!(blocks[0].filename, None);
    assert_eq!(blocks[0].content, "plain\n");
}

#[test]
fn test_choose_by_filename_extension() {
    let s = "```\nnothing\n```\n```lib.rs\nstruct S;\n```";
    let blocks = extract_code_blocks(s);
    assert_eq!(blocks.len(), 2);
    let best = choose_best_block(&blocks, &["rust"]).unwrap();
    assert_eq!(best.filename.as_deref(), Some("lib.rs"));
}

#[test]
fn test_choose_falls_back_to_first() {
    let s = "```python\nprint('hi')\n```";
    let blocks = extract_code_blocks(s);
    let best = choose_best_block(&blocks, &["go"]).unwrap();
    assert_eq!(best.language.as_deref(), Some("python"));
    assert!(choose_best_block(&[], &["go"]).is_none());
}

#[test]
fn test_guess_ext_from_lang_table() {
    assert_eq!(guess_ext_from_lang("Rust"), "rs");
    assert_eq!(guess_ext_from_lang("c++"), "cpp");
    assert_eq!(guess_ext_from_lang("PYTHON"), "py");
    assert_eq!(guess_ext_from_lang("ts"), "ts");
    assert_eq!(guess_ext_from_lang("javascript"), "js");
    assert_eq!(guess_ext_from_lang("go"), "go");
    assert_eq!(guess_ext_from_lang("java"), "java");
    assert_eq!(guess_ext_from_lang("brainfuck"), "txt");
}

#[test]
fn test_plan_single_block_uses_hint() {
    let blocks = extract_code_blocks("```\nbody\n```");
    let plan = plan_code_writes(&blocks, Some("rust"));
    assert_eq!(plan.len(), 1);
    assert_eq!(plan[0].0, "snippet.rs");
    assert_eq!(plan[0].1, "body\n");
}

#[test]
fn test_plan_many_blocks_numbered() {
    let blocks = extract_code_blocks("```python\na\n```\n```\nb\n```");
    let plan = plan_code_writes(&blocks, None);
    assert_eq!(plan.len(), 2);
    assert_eq!(plan[0].0, "snippet_1.py");
    assert_eq!(plan[1].0, "snippet_2.txt");
}

#[test]
fn test_plan_many_blocks_with_hint_picks_best() {
    let blocks = extract_code_blocks("```python\na\n```\n```rust\nb\n```");
    let plan = plan_code_writes(&blocks, Some("rust"));
    assert_eq!(plan.len(), 1);
    assert_eq!(plan[0].0, "snippet.rs");
    assert_eq!(plan[0].1, "b\n");
}
