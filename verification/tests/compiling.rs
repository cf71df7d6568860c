use antbyte::ant::Ant;
use antbyte::ant::AntStatus;
use antbyte::ant::Archetype;
use antbyte::ant::Behavior;
use antbyte::config::WorldConfig;
use antbyte::error::ErrorKind;
use antbyte::linker::SourceFile;
use antbyte::linker::compile_func;
use antbyte::linker::compile_world;
use antbyte::linker::compile_world_file;
use antbyte::linker::compile_world_simple;
use antbyte::parser::Parser;
use antbyte::peripherals::AntType;
use antbyte::peripherals::IoType;
use antbyte::peripherals::Peripheral;
use antbyte::peripherals::PeripheralBit;
use antbyte::stdlib::STDLIB;
use antbyte::syntax::SignatureSpec;
use antbyte::token::Keyword;
use antbyte::token::Token;
use antbyte::truth_table::TruthTable;
use antbyte::vec2::Vec2;
use antbyte::vec2::Vec2u;

fn table(code: &str, name: &str, params: usize, assignees: usize) -> Vec<u32> {
    compile_func(code, SignatureSpec::new(name, params, assignees))
        .unwrap()
        .entries()
        .clone()
}

fn with_std(code: &str) -> String {
    format!("{}\n{}", STDLIB, code)
}

fn kind_of(code: &str) -> ErrorKind {
    compile_world_simple(code).err().unwrap().kind
}

#[test]
fn identity_scenario() {
    let code = "fn main = x => y { y = x; } ant main = 1 { }";
    assert_eq!(table(code, "main", 1, 1), vec![0, 1]);
    let properties = compile_world_simple(code).unwrap();
    let behavior = properties.behaviors[1].as_ref().unwrap();
    assert_eq!(behavior.logic.entries(), &vec![0]);
    assert_eq!(behavior.logic.input_count(), 0);
    assert_eq!(behavior.inputs.len(), 0);
}

#[test]
fn identity_under_other_names() {
    for (f, x, y) in [("copy", "p", "q"), ("f", "in_bit", "out_bit"), ("a1", "b2", "c3")] {
        let code = format!("fn {} = {} => {} {{ {} = {}; }}", f, x, y, y, x);
        assert_eq!(table(&code, f, 1, 1), vec![0, 1]);
    }
    let same = "fn f = x => x { x = x; }";
    assert!(compile_func(same, SignatureSpec::new("f", 1, 1)).is_err());
}

#[test]
fn two_input_and_scenario() {
    let code = "fn main = (a,b) => c { c = and(a,b); } ant main = 1 { }";
    assert_eq!(table(code, "main", 2, 1), vec![0, 0, 0, 1]);
    assert_eq!(
        table("fn main = (a,b) => c { c = -or(-a,-b); }", "main", 2, 1),
        vec![0, 0, 0, 1]
    );
}

#[test]
fn xor_and_half_adder_scenarios() {
    let xor = with_std("fn main = (a, b) => c { c = xor(a, b); }");
    assert_eq!(table(&xor, "main", 2, 1), vec![0, 1, 1, 0]);
    let half = with_std("fn main = (a, b) => (sum, carry) { sum = xor(a, b); carry = and(a, b); }");
    assert_eq!(table(&half, "main", 2, 2), vec![0, 1, 1, 2]);
}

#[test]
fn signs_cancel() {
    assert_eq!(table("fn f = x => y { -y = -x; }", "f", 1, 1), vec![0, 1]);
    assert_eq!(table("fn f = x => y { y = -x; }", "f", 1, 1), vec![1, 0]);
    assert_eq!(table("fn f = x => y { -y = x; }", "f", 1, 1), vec![1, 0]);
    assert_eq!(table("fn f = x => y { +y = +x; }", "f", 1, 1), vec![0, 1]);
    let nested = "fn g = a => b { b = -a; } fn f = x => y { -y = g(x); }";
    assert_eq!(table(nested, "f", 1, 1), vec![0, 1]);
}

#[test]
fn table_sizes_at_the_edges() {
    assert_eq!(table("fn f = () => y { y = or(); }", "f", 0, 1), vec![0]);
    assert_eq!(table("fn f = () => y { y = -or(); }", "f", 0, 1), vec![1]);
    let eight = "fn all = (a, b, c, d, e, f, g, h) => y { y = and(a, b, c, d, e, f, g, h); }";
    let entries = table(eight, "all", 8, 1);
    assert_eq!(entries.len(), 256);
    assert_eq!(entries[255], 1);
    assert_eq!(entries.iter().sum::<u32>(), 1);
    let nine = "fn all = (a, b, c, d, e, f, g, h, i) => y { y = a; }";
    assert_eq!(
        compile_func(nine, SignatureSpec::new("all", 9, 1)).unwrap_err().kind,
        ErrorKind::AsmCapacity
    );
}

#[test]
fn overloads_and_inlining() {
    let code = "
        fn pick = (a, b) => c { c = a; }
        fn pick = (a, b, d) => c { c = d; }
        fn swap = (a, b) => (x, y) { x = b; y = a; }
        fn f = (p, q, r) => (u, v, w) { u = pick(p, q); v = pick(p, q, r); (w, _) = swap(p, q); }
    ";
    let entries = table(code, "f", 3, 3);
    for (i, entry) in entries.iter().enumerate() {
        let (p, q, r) = (i as u32 & 1, (i as u32 >> 1) & 1, (i as u32 >> 2) & 1);
        assert_eq!(*entry, p | (r << 1) | (q << 2));
    }
}

#[test]
fn peripherals_of_an_ant() {
    let properties =
        compile_world_simple("ant main = 1 { D0 = C1; M7 = and(T0, C1); A3 = CX; }").unwrap();
    let behavior = properties.behaviors[1].as_ref().unwrap();
    assert_eq!(
        behavior.inputs,
        vec![
            PeripheralBit { peripheral: Peripheral::Obstacle, bit: 0 },
            PeripheralBit { peripheral: Peripheral::Time, bit: 0 },
            PeripheralBit { peripheral: Peripheral::Cell, bit: 1 },
        ]
    );
    assert_eq!(
        behavior.outputs,
        vec![
            PeripheralBit { peripheral: Peripheral::Direction, bit: 0 },
            PeripheralBit { peripheral: Peripheral::Memory, bit: 7 },
            PeripheralBit { peripheral: Peripheral::SpawnAnt, bit: 3 },
        ]
    );
    assert_eq!(behavior.logic.input_count(), 3);
    assert_eq!(behavior.logic.output_count(), 3);
    let entries = behavior.logic.entries();
    for (i, entry) in entries.iter().enumerate() {
        let (c1, t0, cx) = (i as u32 & 1, (i as u32 >> 1) & 1, (i as u32 >> 2) & 1);
        assert_eq!(*entry, c1 | ((t0 & c1) << 1) | (cx << 2));
        assert!(*entry < 8);
    }
    let reused = compile_world_simple("ant main = 1 { DX = T0; M0 = DX; }").unwrap();
    let behavior = reused.behaviors[1].as_ref().unwrap();
    assert_eq!(behavior.inputs.len(), 1);
    assert_eq!(behavior.logic.entries(), &vec![0, 3]);
}

#[test]
fn peripheral_names() {
    assert_eq!(Peripheral::from_ident("CELL_"), Some(Peripheral::Cell));
    assert_eq!(Peripheral::from_ident("OBSTACLE"), Some(Peripheral::Obstacle));
    assert_eq!(Peripheral::from_ident("MW"), None);
    let bit = PeripheralBit::from_ident("NEXT_CELL_3").unwrap();
    assert_eq!(bit, PeripheralBit { peripheral: Peripheral::CellNext, bit: 3 });
    assert_eq!(PeripheralBit::from_ident("KILL").unwrap().bit, 0);
    assert_eq!(PeripheralBit::from_ident("M").unwrap_err().kind, ErrorKind::AsmBitRange);
    assert_eq!(PeripheralBit::from_ident("D3").unwrap_err().kind, ErrorKind::AsmBitRange);
    assert_eq!(PeripheralBit::from_ident("AX0").unwrap_err().kind, ErrorKind::AsmBitRange);
    assert_eq!(PeripheralBit::from_ident("ZZ").unwrap_err().kind, ErrorKind::AsmPeriphUnknown);
    assert!(bit.validate(&IoType::Input).is_ok());
    assert_eq!(bit.validate(&IoType::Output).unwrap_err().kind, ErrorKind::AsmPeriphDir);
    assert_eq!(Peripheral::Memory.properties().size, 8);
    assert_eq!(Peripheral::SpawnAnt.properties().io_type, Some(IoType::Output));
}

#[test]
fn error_kinds() {
    assert_eq!(kind_of("ant main = 1 { x = $; }"), ErrorKind::LexInvalid);
    assert_eq!(kind_of("fn Foo = a => b { b = a; }"), ErrorKind::LexInvalid);
    assert_eq!(kind_of("set desc = \"open;"), ErrorKind::LexInvalid);
    assert_eq!(kind_of("fn f = a => b { b = a }"), ErrorKind::ParseUnexpected);
    assert_eq!(kind_of("fn f = a => b { b = or(a; }"), ErrorKind::ParseUnmatchedParen);
    assert_eq!(kind_of("fn f = a => b { b = a); }"), ErrorKind::ParseUnmatchedParen);
    assert_eq!(kind_of("fn f = (a, a) => b { b = a; }"), ErrorKind::ParseSignature);
    assert_eq!(kind_of("fn f = a => F { F = a; }"), ErrorKind::ParseSignature);
    assert_eq!(kind_of("ant other { }"), ErrorKind::ParseAntId);
    assert_eq!(kind_of("ant other = 300 { }"), ErrorKind::ParseAntId);
    assert_eq!(kind_of("use \"lib\"; ant main = 1 { }"), ErrorKind::LinkMissingFile);
    assert_eq!(kind_of("fn f = a => b { b = nope(a); }"), ErrorKind::CompUnknownFn);
    assert_eq!(kind_of("fn f = a => b { b = xor(a); }"), ErrorKind::CompOverload);
    assert_eq!(kind_of("fn f = a => b { b = a; b = -a; }"), ErrorKind::CompDupeAssignee);
    assert_eq!(kind_of("fn f = a => b { b = a; } fn f = c => d { d = c; }"), ErrorKind::CompDupeOverload);
    assert_eq!(kind_of("fn f = a => (b, c) { (b, c) = or(a); }"), ErrorKind::CompOrAssignees);
    assert_eq!(kind_of("ant main = 1 { ZZ = T0; }"), ErrorKind::AsmPeriphUnknown);
    assert_eq!(kind_of("ant main = 1 { M8 = T0; }"), ErrorKind::AsmBitRange);
    assert_eq!(kind_of("ant main = 1 { T0 = M0; }"), ErrorKind::AsmPeriphDir);
    assert_eq!(kind_of("ant main = 1 { M0 = AX; }"), ErrorKind::AsmPeriphDir);
    assert_eq!(kind_of("ant main = 1 { M0 = x; }"), ErrorKind::AsmUnknownVariable);
    assert_eq!(
        kind_of("ant main = 1 { M0 = and(T0, T1, T2, T3, T4, T5, T6, T7, R0); }"),
        ErrorKind::AsmCapacity
    );
    assert_eq!(kind_of("set nothing = 1; ant main = 1 { }"), ErrorKind::SettingUnknown);
    assert_eq!(kind_of("set border = sideways; ant main = 1 { }"), ErrorKind::SettingValue);
    assert_eq!(kind_of("set width = 0; ant main = 1 { }"), ErrorKind::SettingValue);
    assert_eq!(kind_of("set loop = 5; ant main = 1 { }"), ErrorKind::ParseUnexpected);
    assert_eq!(kind_of("ant main = 1 { } ant again = 1 { }"), ErrorKind::WorldDupeId);
}

#[test]
fn settings_are_clamped_and_kept() {
    let properties = compile_world_simple(
        "set fps = 100; set speed = 999; set width = 300; set height = 7; set ticks = 0;
         set seed = 42; set loop = 1; set border = die; set start = top_left; set colors = bin;
         set desc = \"hello\"; ant main = 1 { }",
    )
    .unwrap();
    let config = &properties.config;
    assert_eq!(config.fps, Some(60));
    assert_eq!(config.speed, Some(999));
    assert_eq!(config.width, 256);
    assert_eq!(config.height, 7);
    assert_eq!(config.ticks, None);
    assert_eq!(config.noise_seed, Some(42));
    assert!(config.looping);
    assert_eq!(config.description, "hello");
    let mut config = WorldConfig::default();
    assert_eq!((config.width, config.height, config.fps, config.speed), (32, 32, Some(60), Some(1)));
    config.set_setting("size".to_string(), Token::Number(12)).unwrap();
    assert_eq!((config.width, config.height), (12, 12));
    config.set_setting("fps".to_string(), Token::Number(30)).unwrap();
    assert_eq!(config.fps, Some(30));
    config.set_setting("fps".to_string(), Token::Bit(false)).unwrap();
    assert_eq!(config.fps, None);
    let settled = config.speed;
    config.set_setting("speed".to_string(), Token::Number(settled.unwrap())).unwrap();
    assert_eq!(config.speed, settled);
}

fn file(path: &str, stem: &str, code: Option<&str>, imports: &[&str]) -> SourceFile {
    SourceFile {
        path: path.to_string(),
        stem: stem.to_string(),
        extension: "ant".to_string(),
        code: code.map(|c| c.to_string()),
        import_paths: imports.iter().map(|p| p.to_string()).collect(),
    }
}

#[test]
fn imports_are_linked_depth_first() {
    let files = vec![
        file("lib/gates.ant", "gates", Some("use \"more\"; fn main = a => b { b = -more(a); }"), &["lib/more.ant"]),
        file("lib/more.ant", "more", Some("fn main2 = a => b { b = -a; } fn main = a => b { b = main2(a); }"), &[]),
    ];
    let code = "use \"lib/gates\"; use \"lib/more\"; ant main = 1 { M0 = gates(T0); M1 = more(T0); }";
    let paths = vec!["lib/gates.ant".to_string(), "lib/more.ant".to_string()];
    let properties = compile_world(code, &paths, &files).unwrap();
    let behavior = properties.behaviors[1].as_ref().unwrap();
    assert_eq!(behavior.logic.entries(), &vec![2, 1]);
    let root = file("world.ant", "world", Some(code), &["lib/gates.ant", "lib/more.ant"]);
    assert!(compile_world_file(&root, &files).is_ok());
}

#[test]
fn link_errors() {
    let cyclic = vec![
        file("a.ant", "a", Some("use \"b\"; fn main = x => y { y = x; }"), &["b.ant"]),
        file("b.ant", "b", Some("use \"a\"; fn main = x => y { y = x; }"), &["a.ant"]),
    ];
    let code = "use \"a\"; ant main = 1 { }";
    let paths = vec!["a.ant".to_string()];
    assert_eq!(compile_world(code, &paths, &cyclic).unwrap_err().kind, ErrorKind::LinkCycle);
    let mut wrong_extension = file("a.txt", "a", Some(""), &[]);
    wrong_extension.extension = "txt".to_string();
    let paths = vec!["a.txt".to_string()];
    assert_eq!(
        compile_world(code, &paths, &vec![wrong_extension]).unwrap_err().kind,
        ErrorKind::LinkExtension
    );
    let bad_name = vec![file("A-b.ant", "A-b", Some(""), &[])];
    let paths = vec!["A-b.ant".to_string()];
    assert_eq!(compile_world(code, &paths, &bad_name).unwrap_err().kind, ErrorKind::LinkName);
    let unread = vec![file("a.ant", "a", None, &[])];
    let paths = vec!["a.ant".to_string()];
    assert_eq!(compile_world(code, &paths, &unread).unwrap_err().kind, ErrorKind::LinkMissingFile);
    assert_eq!(compile_world(code, &paths, &vec![]).unwrap_err().kind, ErrorKind::LinkMissingFile);
    let mut root = file("World.ant", "World", Some("ant main = 1 { }"), &[]);
    assert_eq!(compile_world_file(&root, &vec![]).unwrap_err().kind, ErrorKind::LinkName);
    root.stem = "world".to_string();
    root.extension = "txt".to_string();
    assert_eq!(compile_world_file(&root, &vec![]).unwrap_err().kind, ErrorKind::LinkExtension);
    let twice = vec![file("a.ant", "a", Some("fn main = x => y { y = x; }"), &[])];
    let code = "use \"a\"; use \"a\"; ant main = 1 { M0 = a(T0); }";
    let paths = vec!["a.ant".to_string(), "a.ant".to_string()];
    assert!(compile_world(code, &paths, &twice).is_ok());
}

#[test]
fn parsed_form_of_a_program() {
    let world = Parser::parse(
        "use \"lib\"; no_std; set size = 9;
         fn f = (a, b) => (c, d) { (-c, +d) = -g(a, -h(b), K3); }
         ant worker = 7 { }  ant main { }",
    )
    .unwrap();
    assert_eq!(world.imports, vec!["lib".to_string()]);
    assert!(world.no_std);
    assert_eq!(world.settings.len(), 1);
    assert_eq!(world.settings[0].key, "size");
    assert_eq!(world.settings[0].value, Token::Number(9));
    assert_eq!(world.funcs.len(), 3);
    let f = &world.funcs[0];
    assert_eq!(f.signature.name, "f");
    assert_eq!(f.signature.params, vec!["a".to_string(), "b".to_string()]);
    assert_eq!(f.signature.assignees, vec!["c".to_string(), "d".to_string()]);
    let statement = &f.statements[0];
    assert_eq!(
        statement.assignees.iter().map(|a| (a.sign, a.target.as_str())).collect::<Vec<_>>(),
        vec![(true, "c"), (false, "d")]
    );
    let g = &statement.expression;
    assert_eq!((g.ident.as_str(), g.sign), ("g", true));
    let args = g.params.as_ref().unwrap();
    assert_eq!(args.len(), 3);
    assert_eq!((args[0].ident.as_str(), args[0].sign, args[0].params.is_none()), ("a", false, true));
    assert_eq!((args[1].ident.as_str(), args[1].sign), ("h", true));
    assert_eq!(args[1].params.as_ref().unwrap()[0].ident, "b");
    assert_eq!(args[2].ident, "K3");
    let ids: Vec<(String, u8)> =
        world.ants.iter().map(|a| (a.target_name.clone(), a.target_id)).collect();
    assert_eq!(ids, vec![("worker".to_string(), 7), ("main".to_string(), 1)]);
    let (calls, next) = statement.expand_expression(5);
    assert_eq!(next, 7);
    let shape: Vec<(String, Vec<(bool, String)>, Vec<(bool, String)>)> = calls
        .iter()
        .map(|c| {
            (
                c.func.clone(),
                c.assignees.iter().map(|a| (a.sign, a.target.clone())).collect(),
                c.params.iter().map(|a| (a.sign, a.target.clone())).collect(),
            )
        })
        .collect();
    assert_eq!(
        shape,
        vec![
            ("h".to_string(), vec![(true, "_5".to_string())], vec![(false, "b".to_string())]),
            (
                "g".to_string(),
                vec![(false, "c".to_string()), (true, "d".to_string())],
                vec![(false, "a".to_string()), (false, "_5".to_string()), (false, "K3".to_string())]
            ),
        ]
    );
}

#[test]
fn tokens_at_the_edges() {
    let tokens = Token::tokenize("1234 01 0 1 a1 _ X_9=>=\"a b\"#c\n;").unwrap();
    assert_eq!(
        tokens,
        vec![
            Token::Number(123),
            Token::Number(4),
            Token::Number(1),
            Token::Bit(false),
            Token::Bit(true),
            Token::Ident("a1".to_string()),
            Token::Ident("_".to_string()),
            Token::Ident("X_9".to_string()),
            Token::Arrow,
            Token::Assign,
            Token::String("a b".to_string()),
            Token::Semicolon,
        ]
    );
    assert_eq!(Token::tokenize("").unwrap(), vec![]);
    assert_eq!(Token::tokenize("set").unwrap(), vec![Token::Keyword(Keyword::Setting)]);
    assert_eq!(Token::tokenize("no_std").unwrap(), vec![Token::Keyword(Keyword::NoStd)]);
    assert_eq!(Token::tokenize("_x").unwrap_err().kind, ErrorKind::LexInvalid);
    assert_eq!(Token::tokenize("aB").unwrap_err().kind, ErrorKind::LexInvalid);
    assert_eq!(Token::tokenize("\"a\nb\"").unwrap_err().kind, ErrorKind::LexInvalid);
    assert_eq!(Keyword::from_ident("use"), Some(Keyword::Use));
    assert_eq!(Keyword::from_ident("used"), None);
}

#[test]
fn tables_and_behaviors_by_hand() {
    let table = TruthTable::new(1, 2, vec![3, 0]).unwrap();
    assert_eq!((table.input_count(), table.output_count()), (1, 2));
    assert_eq!(table.get(0), 3);
    assert_eq!(table.get(1), 0);
    assert_eq!(table.get(2), 0);
    assert_eq!(TruthTable::new(1, 2, vec![4, 0]).unwrap_err().kind, ErrorKind::TableShape);
    assert_eq!(TruthTable::new(1, 2, vec![0]).unwrap_err().kind, ErrorKind::TableShape);
    assert_eq!(TruthTable::new(1, 33, vec![0, 0]).unwrap_err().kind, ErrorKind::TableShape);
    assert_eq!(TruthTable::new(9, 1, vec![0; 512]).unwrap_err().kind, ErrorKind::TableShape);
    assert!(TruthTable::new(0, 32, vec![u32::MAX]).is_ok());
    assert_eq!(TruthTable::default().entries(), &vec![0]);
    let time = PeripheralBit { peripheral: Peripheral::Time, bit: 0 };
    let cell0 = PeripheralBit { peripheral: Peripheral::Cell, bit: 0 };
    let spawn = PeripheralBit { peripheral: Peripheral::SpawnAnt, bit: 1 };
    let make = |inputs: Vec<PeripheralBit>, outputs: Vec<PeripheralBit>, table: TruthTable| {
        Behavior::new("b".to_string(), table, inputs, outputs)
    };
    let behavior = make(vec![time], vec![cell0, spawn], table.clone()).unwrap();
    assert_eq!(behavior.name, "b");
    assert_eq!(make(vec![time, time], vec![], table.clone()).unwrap_err().kind, ErrorKind::BehaviorDupe);
    assert_eq!(make(vec![spawn], vec![cell0, spawn], table.clone()).unwrap_err().kind, ErrorKind::AsmPeriphDir);
    assert_eq!(make(vec![time], vec![cell0], table.clone()).unwrap_err().kind, ErrorKind::TableShape);
    let high = PeripheralBit { peripheral: Peripheral::Cell, bit: 4 };
    assert_eq!(make(vec![time], vec![cell0, high], table.clone()).unwrap_err().kind, ErrorKind::AsmBitRange);
    assert_eq!(
        Archetype::new(AntType::Worker, behavior.clone()).unwrap_err().kind,
        ErrorKind::AsmForbidden
    );
    assert_eq!(
        Archetype::new(AntType::Queen, behavior.clone()).unwrap_err().kind,
        ErrorKind::AsmForbidden
    );
    let plain = make(vec![time], vec![cell0], TruthTable::new(1, 1, vec![0, 1]).unwrap()).unwrap();
    let worker = Archetype::new(AntType::Worker, plain).unwrap();
    assert!(worker.validate().is_ok());
    assert!(Peripheral::Cell.is_legal(AntType::Worker));
    assert!(!Peripheral::Kill.is_legal(AntType::Worker));
    assert!(Peripheral::Die.is_legal(AntType::Queen));
    let clear = antbyte::peripherals::OutputValue { output: Peripheral::CellClear, value: 1 };
    let write = antbyte::peripherals::OutputValue { output: Peripheral::Cell, value: 0 };
    let more = antbyte::peripherals::OutputValue { output: Peripheral::Cell, value: 3 };
    assert!(clear.precedes(&write));
    assert!(write.precedes(&more));
    assert!(!more.precedes(&write));
    assert!(!write.precedes(&write));
}

#[test]
fn ants_turn_and_grow() {
    let mut ant = Ant::new(Vec2u { x: 1, y: 2 }, 9, 3);
    assert_eq!((ant.dir, ant.behavior, ant.age, ant.status), (1, 3, 0, AntStatus::Newborn));
    assert!(!ant.is_alive());
    ant.grow_up();
    assert!(ant.is_alive());
    assert_eq!(ant.age, 0);
    ant.grow_up();
    assert_eq!(ant.age, 1);
    ant.flip_dir();
    assert_eq!(ant.dir, 5);
    ant.set_dir(12);
    assert_eq!(ant.dir, 4);
    assert_eq!(ant.get_dir_vec(), Vec2 { x: 0, y: 1 });
    assert_eq!(Ant::wrap_dir(255), 7);
    ant.die();
    assert_eq!(ant.status, AntStatus::Dead);
    ant.grow_up();
    assert_eq!((ant.status, ant.age), (AntStatus::Dead, 1));
}

#[test]
fn names_that_the_compiler_makes() {
    let world = Parser::parse(
        "fn g = (a, b) => c { t = or(a, b); c = -or(t, K); }
         fn f = (x, y) => z { (-z) = g(-x, y); w = and(x, g(y, y)); }",
    )
    .unwrap();
    let compiled = antbyte::compiler::compile_funcs(&world.funcs).unwrap();
    let listing: Vec<String> = compiled[1]
        .comp_statements
        .iter()
        .map(|s| {
            let params: Vec<String> = s
                .params
                .iter()
                .map(|p| format!("{}{}", if p.sign { "-" } else { "" }, p.target))
                .collect();
            format!("{}{} <- {}", if s.assignee.sign { "-" } else { "" }, s.assignee.target, params.join(" "))
        })
        .collect();
    assert_eq!(
        listing,
        vec![
            "_g_1_t <- -x y",
            "z <- _g_1_t K",
            "_g_2_t <- y y",
            "-_2 <- _g_2_t K",
            "-w <- -x -_2",
        ]
    );
    let mut ant = Parser::parse("ant main = 1 { M1 = or(T0, -CN3); D0 = M1; }")
        .unwrap()
        .funcs
        .pop()
        .unwrap()
        .compile(&vec![])
        .unwrap();
    let (inputs, outputs) = ant.extract_peripherals().unwrap();
    assert_eq!(inputs.len(), 2);
    assert_eq!(outputs.len(), 2);
    assert_eq!(ant.signature.params, vec!["_i_time_0", "_i_cell_next_3"]);
    assert_eq!(ant.signature.assignees, vec!["_o_memory_1", "_o_direction_0"]);
    assert_eq!(ant.comp_statements[1].params[0].target, "_o_memory_1");
    assert_eq!(ant.tick(0b00), 0b11);
    assert_eq!(ant.tick(0b10), 0b00);
    assert_eq!(ant.tick(0b11), 0b11);
    assert_eq!(ant.simulate().entries(), &vec![3, 3, 0, 3]);
}

#[test]
fn listings() {
    let world = Parser::parse("fn f = (a, b) => (c, d) { c = or(-a, b); -d = a; }").unwrap();
    assert_eq!(world.funcs[0].signature.to_text(), "f = (a, b) => (c, d)");
    assert_eq!(world.funcs[0].signature.spec().to_text(), "f = [2] => [2]");
    let compiled = antbyte::compiler::compile_funcs(&world.funcs).unwrap();
    assert_eq!(compiled[0].comp_statements[0].to_text(), "c <- !a, b;");
    assert_eq!(compiled[0].comp_statements[1].assignee.to_text(), "!d");
    assert_eq!(
        compiled[0].to_text(),
        "f = (a, b) => (c, d) ~{\n\tc <- !a, b;\n\n\t!d <- a;\n}\n"
    );
    let table = TruthTable::new(1, 9, vec![5, 256]).unwrap();
    assert_eq!(table.to_text(), "00000000 => 00000101\n00000001 => 100000000\n\n");
    let linked = antbyte::linker::link_world(
        Parser::parse("no_std; set size = 3; fn f = a => b { b = a; } ant main = 1 { }").unwrap(),
        &vec![],
        &vec![],
    )
    .unwrap();
    assert_eq!(linked.funcs.len(), 2);
    assert_eq!(linked.settings.len(), 1);
    assert_eq!(linked.ants.len(), 1);
    let with_std = antbyte::linker::link_world(Parser::parse("ant main = 1 { }").unwrap(), &vec![], &vec![])
        .unwrap();
    assert_eq!(with_std.funcs[0].signature.name, "and");
    assert_eq!(with_std.funcs.last().unwrap().signature.name, "main");
}

#[test]
fn errors_name_what_they_are_about() {
    let subject = |code: &str| compile_world_simple(code).err().unwrap().subject;
    assert_eq!(subject("fn f = a => b { b = aB; }"), "aB");
    assert_eq!(subject("fn f = a => b { b = $; }"), "");
    assert_eq!(subject("fn dup = (a, a) => b { b = a; }"), "dup");
    assert_eq!(subject("ant other { }"), "other");
    assert_eq!(subject("fn f = a => b { b = nope(a); }"), "nope");
    assert_eq!(subject("fn f = a => b { b = xor(a); }"), "xor");
    assert_eq!(subject("fn f = a => b { b = a; c = a; c = -a; }"), "c");
    assert_eq!(subject("fn f = a => b { b = a; } fn f = c => d { d = c; }"), "f");
    assert_eq!(subject("ant main = 1 { ZZ = T0; }"), "ZZ");
    assert_eq!(subject("ant main = 1 { M8 = T0; }"), "M8");
    assert_eq!(subject("ant main = 1 { T0 = M0; }"), "T0");
    assert_eq!(subject("ant main = 1 { M0 = x; }"), "x");
    assert_eq!(subject("ant wide = 1 { M0 = and(T0, T1, T2, T3, T4, T5, T6, T7, R0); }"), "wide");
    assert_eq!(subject("set nothing = 1; ant main = 1 { }"), "nothing");
    assert_eq!(subject("set border = sideways; ant main = 1 { }"), "sideways");
    assert_eq!(subject("set loop = 5; ant main = 1 { }"), "loop");
    assert_eq!(subject("ant main = 1 { } ant again = 1 { }"), "again");
    let missing = compile_world("use \"a\"; ant main = 1 { }", &vec!["dir/a.ant".to_string()], &vec![]);
    assert_eq!(missing.unwrap_err().subject, "dir/a.ant");
}
