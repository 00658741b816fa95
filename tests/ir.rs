use blastf::ir::{Block, File, Function, Instruction, InstructionKind};
use blastf::path::Path;

fn command(c: &str) -> Instruction {
    Instruction { kind: InstructionKind::Command(c.to_string()) }
}

#[test]
fn test_all() {
    let mut path = Path::new();
    path.push("root".to_string());
    path.push("foo".to_string());

    let block = Block { instructions: vec![command("say hi")] };
    let function = Function { name: "bar".to_string(), block };
    let file = File { path, functions: vec![function] };

    assert_eq!(file.to_string(), "File: root::foo\nbar {\nsay hi\n}\n");
}

#[test]
fn call_and_chain_display() {
    let call = Instruction {
        kind: InstructionKind::Call("function".to_string(), "foo".to_string(), "{ }".to_string()),
    };
    assert_eq!(call.to_string(), "function foo { }");
    let chain = Instruction {
        kind: InstructionKind::Chain(Box::new(command("execute as @a run")), Box::new(command("say hi"))),
    };
    assert_eq!(chain.to_string(), "execute as @a run say hi");
}

#[test]
fn nested_block_display() {
    let inner = Block { instructions: vec![command("a"), command("b")] };
    let outer = Block {
        instructions: vec![Instruction { kind: InstructionKind::Block(inner) }, command("c")],
    };
    assert_eq!(outer.to_string(), "{\n{\na\nb\n}\nc\n}");
    assert_eq!(Block { instructions: vec![] }.to_string(), "{\n}");
}

#[test]
fn file_without_functions() {
    let mut path = Path::new();
    path.push("root".to_string());
    let file = File { path, functions: vec![] };
    assert_eq!(file.to_string(), "File: root\n");
}
