use glin_forge::analyze::{
    analyze_content, analyze_gas, analyze_security, calculate_function_complexity, complexity_by_function,
    count_function_lines, extract_function_name,
};

const SOURCE: &str = "#[ink::contract]
mod flipper {
    use ink::storage::Mapping;
    pub trait Flip {
    }
    #[ink(storage)]
    pub struct Flipper {
        value: bool,
        names: Vec<String>,
    }
    impl Flipper {
        #[ink(payable)]
        pub fn deposit(&mut self, amount: u128) {
            if amount > 0 && self.value {
                self.value = false;
            }
        }
        #[ink(message)]
        fn pick(&self, n: u8) -> u8 {
            match n {
                0 => 1,
                _ => n.checked_add(1).unwrap(),
            }
        }
    }
}
";

#[test]
fn analysis_of_a_contract() {
    let a = analyze_content("flipper.rs", SOURCE).expect("contract source");
    assert_eq!(a.path, "flipper.rs");
    assert_eq!(a.lines_of_code, 26);
    assert_eq!(a.imports, vec!["use ink::storage::Mapping;".to_string()]);
    assert_eq!(a.traits, vec!["Flip".to_string()]);
    assert_eq!(a.structs, vec!["Flipper".to_string()]);
    assert_eq!(a.functions.len(), 2);
    let deposit = &a.functions[0];
    assert_eq!(deposit.name, "deposit");
    assert_eq!(deposit.visibility, "public");
    assert!(deposit.is_payable);
    assert_eq!(deposit.lines, 5);
    assert_eq!(deposit.complexity, 2);
    let pick = &a.functions[1];
    assert_eq!(pick.name, "pick");
    assert_eq!(pick.visibility, "private");
    assert!(!pick.is_payable);
    assert_eq!(pick.lines, 6);
    assert_eq!(pick.complexity, 4);

    let issues = analyze_security("flipper.rs", SOURCE, &a.functions);
    let categories: Vec<&str> = issues.iter().map(|i| i.category.as_str()).collect();
    assert_eq!(categories, vec!["Access Control", "Error Handling", "Transparency"]);
    assert_eq!(issues[0].severity, "high");
    assert_eq!(issues[0].description, "Payable function 'deposit' lacks access control");
    assert_eq!(issues[0].file, "flipper.rs");

    let gas = analyze_gas("flipper.rs", SOURCE, &a.functions);
    let impacts: Vec<&str> = gas.iter().map(|g| g.impact.as_str()).collect();
    assert_eq!(impacts, vec!["high", "medium"]);
    assert_eq!(gas[1].description, "Vec in storage requires careful management");
}

#[test]
fn non_contract_text_is_skipped() {
    assert!(analyze_content("notes.txt", "just some notes").is_none());
}

#[test]
fn function_names_and_spans() {
    assert_eq!(extract_function_name("pub fn transfer(&mut self, to: AccountId)"), "transfer");
    assert_eq!(extract_function_name("fn helper<T>(x: T)"), "helper<T>");
    assert_eq!(extract_function_name("no function here"), "unknown");
    let lines: Vec<String> = ["fn f() {", "    if a || b {", "    }", "}", "after"].iter().map(|s| s.to_string()).collect();
    assert_eq!(count_function_lines(&lines, 0), 4);
    assert_eq!(calculate_function_complexity(&lines, 0), 2);
    assert_eq!(count_function_lines(&lines, 10), 0);
}

#[test]
fn complex_functions_are_flagged() {
    let mut src = String::from("mod m {\n    fn busy() {\n");
    for i in 0..11 {
        src.push_str(&format!("        if x == {} {{ }}\n", i));
    }
    src.push_str("    }\n}\n");
    let a = analyze_content("busy.rs", &src).expect("contract source");
    assert_eq!(a.functions[0].complexity, 12);
    let gas = analyze_gas("busy.rs", &src, &a.functions);
    assert_eq!(gas.len(), 1);
    assert_eq!(gas[0].description, "Function 'busy' has high complexity (12)");
}

#[test]
fn complexity_table_keeps_last_per_name() {
    let src = "mod m {\n    fn a() {\n        if x { }\n    }\n    fn b() {\n    }\n    fn a() {\n    }\n}\n";
    let a = analyze_content("m.rs", src).expect("contract source");
    assert_eq!(a.functions.len(), 3);
    let table = complexity_by_function(&a.functions);
    assert_eq!(table.len(), 2);
    assert_eq!(table[0], ("a".to_string(), 1));
    assert_eq!(table[1], ("b".to_string(), 1));
}
