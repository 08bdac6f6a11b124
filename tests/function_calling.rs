use ruskgpt::function_calling::{generate_command, FunctionDeclaration, FunctionParameter};

fn flag_parameter(name: &str, flag: &str) -> FunctionParameter {
    FunctionParameter {
        name: name.to_string(),
        param_type: "boolean".to_string(),
        description: format!("the {} flag", name),
        required: false,
        dangerous: Some(false),
        flag: Some(flag.to_string()),
    }
}

fn ls_declaration() -> FunctionDeclaration {
    FunctionDeclaration::Shell {
        name: "ls".to_string(),
        description: "List directory contents".to_string(),
        parameters: vec![flag_parameter("all", "-a"), flag_parameter("long", "-l")],
        command_template: "ls {all} {long}".to_string(),
    }
}

fn eval_declaration() -> FunctionDeclaration {
    FunctionDeclaration::Shell {
        name: "eval".to_string(),
        description: "Run a shell command".to_string(),
        parameters: vec![FunctionParameter {
            name: "command".to_string(),
            param_type: "string".to_string(),
            description: "The command to run".to_string(),
            required: true,
            dangerous: Some(true),
            flag: None,
        }],
        command_template: "{command}".to_string(),
    }
}

#[test]
fn test_generate_command() {
    let function = ls_declaration();

    let llm_params = [];
    let command = generate_command(function.clone(), &llm_params);
    assert_eq!(command, "ls");

    let llm_params_with_hidden = [("all", "true")];
    let command_with_hidden = generate_command(function.clone(), &llm_params_with_hidden);
    assert_eq!(command_with_hidden, "ls -a");

    let llm_params_with_long = [("long", "true")];
    let command_with_long = generate_command(function.clone(), &llm_params_with_long);
    assert_eq!(command_with_long, "ls -l");

    let llm_params_with_all_and_long = [("all", "true"), ("long", "true")];
    let command_with_all_and_long = generate_command(function, &llm_params_with_all_and_long);
    assert_eq!(command_with_all_and_long, "ls -a -l");

    let function_eval = eval_declaration();

    let llm_params_eval = [("command", "echo Hello, world!")];
    let command_eval = generate_command(function_eval, &llm_params_eval);
    assert_eq!(command_eval, "echo Hello, world!");
}

#[test]
fn false_value_removes_placeholder_and_space() {
    let command = generate_command(ls_declaration(), &[("all", "false"), ("long", "true")]);
    assert_eq!(command, "ls -l");
}

#[test]
fn last_argument_of_a_name_wins() {
    let command = generate_command(ls_declaration(), &[("all", "true"), ("all", "false")]);
    assert_eq!(command, "ls");
}

#[test]
fn true_without_flag_keeps_placeholder() {
    let command = generate_command(eval_declaration(), &[("command", "true")]);
    assert_eq!(command, "{command}");
}

#[test]
fn plain_value_replaces_every_occurrence() {
    let declaration = FunctionDeclaration::Shell {
        name: "twice".to_string(),
        description: String::new(),
        parameters: vec![FunctionParameter {
            name: "x".to_string(),
            param_type: "string".to_string(),
            description: String::new(),
            required: true,
            dangerous: None,
            flag: None,
        }],
        command_template: "echo {x} {x}".to_string(),
    };
    assert_eq!(generate_command(declaration, &[("x", "hi")]), "echo hi hi");
}
