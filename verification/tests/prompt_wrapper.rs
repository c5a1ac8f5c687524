use ioi_kernel::prompt_wrapper::{PolicyGuardrails, PromptWrapper};

#[test]
fn canonical_prompt_text() {
    let g = PolicyGuardrails { allowed_operations: vec!["transfer".to_string(), "start_agent".to_string()], max_token_spend: 1000 };
    let p = PromptWrapper::build_canonical_prompt("send 5 to bob", "Address Book: {}", &g);
    let expected = format!(
        "You are a secure blockchain intent resolver. Your job is to map natural language to a transaction JSON.\nAllowed Operations: {}\nChain Context: {}\n\nSchemas:\n- Transfer: {{ \"operation_id\": \"transfer\", \"params\": {{ \"to\": \"0x...\", \"amount\": 100 }} }}\n- Start Agent: {{ \"operation_id\": \"start_agent\", \"params\": {{ \"goal\": \"...\" }} }}\n- Governance: {{ \"operation_id\": \"governance_vote\", \"params\": {{ \"proposal_id\": 1, \"vote\": \"yes\" }} }}\n\nUser Input: \"{}\"\n\nOUTPUT RULES:\n1. Return ONLY the JSON object.\n2. Do NOT use Markdown formatting (no ```json ... ```).\n3. The root object MUST have an 'operation_id' field.\n4. 'gas_ceiling' is optional.",
        "[\"transfer\", \"start_agent\"]",
        "Address Book: {}",
        "send 5 to bob"
    );
    assert_eq!(p, expected);
}
