//! The canonical prompt that turns a user's intent into a transaction request.

use vstd::prelude::*;
use vstd::string::StringExecFns;
use crate::provider_registry::strings_view;

verus! {

/// The guardrails of a prompt.
pub struct PolicyGuardrails {
    pub allowed_operations: Vec<String>,
    pub max_token_spend: u64,
}

/// Builds canonical prompts.
pub struct PromptWrapper;

/// The `Debug` rendering of a list of strings, as std's formatter writes it.
pub uninterp spec fn debug_strings_spec(v: Seq<Seq<char>>) -> Seq<char>;

/// Calls std's `Debug` formatting (`format!("{:?}", ..)`) of a list of strings.
/// Claims: the text depends on the strings alone.
#[verifier::external_body]
fn debug_strings(v: &Vec<String>) -> (res: String)
    ensures
        res@ == debug_strings_spec(strings_view(v@)),
{
    format!("{:?}", v)
}

/// The text of a canonical prompt.
pub open spec fn spec_canonical_prompt(user_intent: Seq<char>, chain_state_context: Seq<char>, ops: Seq<char>) -> Seq<char> {
    "You are a secure blockchain intent resolver. Your job is to map natural language to a transaction JSON.\nAllowed Operations: "@
        + ops + "\nChain Context: "@ + chain_state_context
        + "\n\nSchemas:\n- Transfer: { \"operation_id\": \"transfer\", \"params\": { \"to\": \"0x...\", \"amount\": 100 } }\n- Start Agent: { \"operation_id\": \"start_agent\", \"params\": { \"goal\": \"...\" } }\n- Governance: { \"operation_id\": \"governance_vote\", \"params\": { \"proposal_id\": 1, \"vote\": \"yes\" } }"@
        + "\n\n"@ + "User Input: \""@ + user_intent + "\""@ + "\n\n"@
        + "OUTPUT RULES:\n1. Return ONLY the JSON object.\n2. Do NOT use Markdown formatting (no ```json ... ```).\n3. The root object MUST have an 'operation_id' field.\n4. 'gas_ceiling' is optional."@
}

impl PromptWrapper {
    /// Builds the canonical prompt: the resolver instructions with the allowed
    /// operations and the chain context, the user's input, and the output rules.
    pub fn build_canonical_prompt(
        user_intent: &str,
        chain_state_context: &str,
        guardrails: &PolicyGuardrails,
    ) -> (r: String)
        ensures
            r@ == spec_canonical_prompt(user_intent@, chain_state_context@,
                debug_strings_spec(strings_view(guardrails.allowed_operations@))),
    {
        let ops = debug_strings(&guardrails.allowed_operations);
        let mut prompt = String::from_str("You are a secure blockchain intent resolver. Your job is to map natural language to a transaction JSON.\nAllowed Operations: ");
        prompt.append(ops.as_str());
        prompt.append("\nChain Context: ");
        prompt.append(chain_state_context);
        prompt.append("\n\nSchemas:\n- Transfer: { \"operation_id\": \"transfer\", \"params\": { \"to\": \"0x...\", \"amount\": 100 } }\n- Start Agent: { \"operation_id\": \"start_agent\", \"params\": { \"goal\": \"...\" } }\n- Governance: { \"operation_id\": \"governance_vote\", \"params\": { \"proposal_id\": 1, \"vote\": \"yes\" } }");
        prompt.append("\n\n");
        prompt.append("User Input: \"");
        prompt.append(user_intent);
        prompt.append("\"");
        prompt.append("\n\n");
        prompt.append("OUTPUT RULES:\n1. Return ONLY the JSON object.\n2. Do NOT use Markdown formatting (no ```json ... ```).\n3. The root object MUST have an 'operation_id' field.\n4. 'gas_ceiling' is optional.");
        prompt
    }
}

} // verus!
