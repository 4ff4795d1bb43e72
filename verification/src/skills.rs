//! agentskills.io compliant prompts for proxy management.
//!
//! The prompts that guide AI agents through proxy configuration, validation,
//! and troubleshooting. Skills complement the admin tools: tools perform
//! actions, skills provide the knowledge to use them effectively.

use vstd::prelude::*;

use crate::text::{concat2, concat3};

verus! {

/// A prompt.
#[derive(Debug)]
pub struct Skill {
    /// The name of the prompt, which is also that of its guide.
    pub name: String,
    /// What the prompt is for.
    pub description: String,
    /// The description of the result, for a prompt that shows the current
    /// configuration behind its guide. Any other prompt is its guide alone.
    pub with_config: Option<String>,
}

/// What a prompt says of itself.
pub open spec fn says(
    skill: Skill,
    name: Seq<char>,
    description: Seq<char>,
    with_config: Option<Seq<char>>,
) -> bool {
    &&& skill.name@ == name
    &&& skill.description@ == description
    &&& match (skill.with_config, with_config) {
        (Some(a), Some(b)) => a@ == b,
        (None, None) => true,
        _ => false,
    }
}

fn skill(name: &str, description: &str, with_config: Option<&str>) -> (skill: Skill)
    ensures
        says(
            skill,
            name@,
            description@,
            match with_config {
                Some(text) => Some(text@),
                None => None::<Seq<char>>,
            },
        ),
{
    Skill {
        name: name.to_owned(),
        description: description.to_owned(),
        with_config: match with_config {
            Some(text) => Some(text.to_owned()),
            None => None,
        },
    }
}

/// Build all agentskills.io prompts for the proxy.
pub fn build_skills() -> (skills: Vec<Skill>)
    ensures
        skills@.len() == 7,
        says(
            skills@[0],
            "setup"@,
            "Guided proxy configuration from a description of desired backends and policies"@,
            None,
        ),
        says(
            skills@[1],
            "configure_auth"@,
            "Configure authentication: bearer tokens, JWT/JWKS, or OAuth 2.1"@,
            None,
        ),
        says(
            skills@[2],
            "configure_resilience"@,
            "Set up circuit breakers, retries, rate limits, timeouts, and hedging for backends"@,
            None,
        ),
        says(
            skills@[3],
            "check_config"@,
            "Validate the current proxy configuration and report issues"@,
            Some("Configuration validation guide"@),
        ),
        says(
            skills@[4],
            "diagnose"@,
            "Analyze proxy health, identify issues, and suggest improvements"@,
            None,
        ),
        says(
            skills@[5],
            "status"@,
            "Get current proxy state: backend health, sessions, and metrics"@,
            None,
        ),
        says(
            skills@[6],
            "explain_config"@,
            "Describe the current proxy configuration in natural language"@,
            Some("Configuration explanation"@),
        ),
{
    let mut skills: Vec<Skill> = Vec::new();
    skills.push(
        skill(
            "setup",
            "Guided proxy configuration from a description of desired backends and policies",
            None,
        ),
    );
    skills.push(
        skill(
            "configure_auth",
            "Configure authentication: bearer tokens, JWT/JWKS, or OAuth 2.1",
            None,
        ),
    );
    skills.push(
        skill(
            "configure_resilience",
            "Set up circuit breakers, retries, rate limits, timeouts, and hedging for backends",
            None,
        ),
    );
    skills.push(
        skill(
            "check_config",
            "Validate the current proxy configuration and report issues",
            Some("Configuration validation guide"),
        ),
    );
    skills.push(
        skill(
            "diagnose",
            "Analyze proxy health, identify issues, and suggest improvements",
            None,
        ),
    );
    skills.push(
        skill(
            "status",
            "Get current proxy state: backend health, sessions, and metrics",
            None,
        ),
    );
    skills.push(
        skill(
            "explain_config",
            "Describe the current proxy configuration in natural language",
            Some("Configuration explanation"),
        ),
    );
    skills
}

/// The text of a prompt: its guide and, for a prompt that shows it, the current
/// configuration.
pub fn prompt_text(skill: &Skill, guide: &str, config: &str) -> (text: String)
    ensures
        text@ == (if skill.with_config is Some {
            guide@ + "\n\n## Current Configuration\n\n```toml\n"@ + config@ + "\n```"@
        } else {
            guide@
        }),
{
    if skill.with_config.is_some() {
        let start = concat3(guide, "\n\n## Current Configuration\n\n```toml\n", config);
        concat2(start.as_str(), "\n```")
    } else {
        guide.to_owned()
    }
}

/// A prompt says of itself what it holds.
pub proof fn prompts_say_what_they_hold(
    skill: Skill,
    name: Seq<char>,
    description: Seq<char>,
    with_config: Option<Seq<char>>,
)
    requires
        says(skill, name, description, with_config),
    ensures
        skill.name@ == name,
        skill.description@ == description,
        skill.with_config is Some <==> with_config is Some,
        skill.with_config matches Some(text) ==> with_config == Some(text@),
{
}

} // verus!
