use wasmedge_factory::{
    CreateFunction, DataType, DefinitionError, DefinitionStatement, Volatility,
    WasmFunctionFactory,
};

#[test]
fn test_module_function_split() {
    let (module, method) = WasmFunctionFactory::wasm_module_function("module!method").unwrap();
    assert_eq!("module", module);
    assert_eq!("method", method);

    assert!(WasmFunctionFactory::wasm_module_function("!method").is_err());
}

#[test]
fn split_names_each_fault() {
    assert_eq!(
        WasmFunctionFactory::wasm_module_function("!method"),
        Err(DefinitionError::EmptyModule)
    );
    assert_eq!(
        WasmFunctionFactory::wasm_module_function("module!"),
        Err(DefinitionError::EmptyMethod)
    );
    assert_eq!(
        WasmFunctionFactory::wasm_module_function("modulemethod"),
        Err(DefinitionError::MissingSeparator)
    );
    assert_eq!(
        WasmFunctionFactory::wasm_module_function("a!b!c"),
        Err(DefinitionError::DuplicatedSeparator)
    );
    assert_eq!(
        WasmFunctionFactory::wasm_module_function("!!"),
        Err(DefinitionError::DuplicatedSeparator)
    );
    assert_eq!(
        WasmFunctionFactory::wasm_module_function("!"),
        Err(DefinitionError::EmptyModule)
    );
    assert_eq!(
        WasmFunctionFactory::wasm_module_function(""),
        Err(DefinitionError::MissingSeparator)
    );
}

#[test]
fn split_keeps_paths_and_other_scripts() {
    let (module, method) = WasmFunctionFactory::wasm_module_function(
        "wasm_function/target/wasm32-unknown-unknown/debug/wasm_function.wasm!f1",
    )
    .unwrap();
    assert_eq!(
        module,
        "wasm_function/target/wasm32-unknown-unknown/debug/wasm_function.wasm"
    );
    assert_eq!(method, "f1");

    let (module, method) = WasmFunctionFactory::wasm_module_function("modül/ü!größe").unwrap();
    assert_eq!(module, "modül/ü");
    assert_eq!(method, "größe");
}

#[test]
fn every_definition_fault_has_its_text() {
    assert_eq!(DefinitionError::MissingSeparator.describe(), "bad module/method format");
    assert_eq!(DefinitionError::DuplicatedSeparator.describe(), "bad module/method format");
    assert_eq!(DefinitionError::EmptyModule.describe(), "bad module/method format");
    assert_eq!(DefinitionError::EmptyMethod.describe(), "bad module/method format");
    assert_eq!(DefinitionError::NotDefined.describe(), "wasm function not defined");
    assert_eq!(DefinitionError::UnsupportedDefinition.describe(), "wasm function incorrect");
    assert_eq!(DefinitionError::MissingReturnType.describe(), "return type expected");
}

fn statement(definition: Option<DefinitionStatement>) -> CreateFunction {
    CreateFunction {
        name: String::from("f1"),
        args: Some(vec![DataType::Float64, DataType::Float64]),
        return_type: Some(DataType::Float64),
        definition,
    }
}

#[test]
fn create_plans_the_registration() {
    let factory = WasmFunctionFactory::default();
    let plan = factory
        .create(statement(Some(DefinitionStatement::SingleQuotedDef(String::from(
            "wasm_function.wasm!pow",
        )))))
        .unwrap();
    assert_eq!(plan.module, "wasm_function.wasm");
    assert_eq!(plan.method, "pow");
    assert_eq!(plan.function.name(), "f1");
    assert_eq!(plan.function.wasm_method(), "__wasm_udf_pow");
    assert_eq!(
        plan.function.signature().argument_types,
        vec![DataType::Float64, DataType::Float64]
    );
    assert_eq!(plan.function.signature().volatility, Volatility::Volatile);
    assert_eq!(plan.function.return_type(&[]), DataType::Float64);
    assert_eq!(plan.function.return_type(&[DataType::Int8]), DataType::Float64);
    let schema = plan.function.argument_schema();
    assert_eq!(schema.fields.len(), 2);
    assert_eq!(schema.fields[0].name, "c0");
    assert_eq!(schema.fields[1].name, "c1");
    assert!(!schema.fields[0].nullable);
    assert!(!schema.fields[1].nullable);
}

#[test]
fn create_without_arguments_declares_none() {
    let factory = WasmFunctionFactory::default();
    let mut s = statement(Some(DefinitionStatement::SingleQuotedDef(String::from("m!f"))));
    s.args = None;
    let plan = factory.create(s).unwrap();
    assert!(plan.function.signature().argument_types.is_empty());
    assert!(plan.function.argument_schema().fields.is_empty());
}

#[test]
fn create_refuses_what_is_malformed() {
    let factory = WasmFunctionFactory::default();
    assert_eq!(factory.create(statement(None)).err(), Some(DefinitionError::NotDefined));
    assert_eq!(
        factory
            .create(statement(Some(DefinitionStatement::DoubleDollarDef(String::from("m!f")))))
            .err(),
        Some(DefinitionError::UnsupportedDefinition)
    );
    assert_eq!(
        factory
            .create(statement(Some(DefinitionStatement::SingleQuotedDef(String::from("mf")))))
            .err(),
        Some(DefinitionError::MissingSeparator)
    );
    assert_eq!(
        factory
            .create(statement(Some(DefinitionStatement::SingleQuotedDef(String::from("m!")))))
            .err(),
        Some(DefinitionError::EmptyMethod)
    );
    let mut s = statement(None);
    s.return_type = None;
    assert_eq!(factory.create(s).err(), Some(DefinitionError::MissingReturnType));
    let mut s = statement(Some(DefinitionStatement::SingleQuotedDef(String::from("m!f"))));
    s.return_type = None;
    assert_eq!(factory.create(s).err(), Some(DefinitionError::MissingReturnType));
}
