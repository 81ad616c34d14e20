//! Records exchanged with extensions: commands and code labels.
use vstd::prelude::*;
use crate::text::{has_suffix, ends_with_str, str_eq};

verus! {

/// A list of environment variables, in order.
pub type EnvVars = Vec<(String, String)>;

/// A command to run.
#[derive(Debug, Clone)]
pub struct Command {
    /// The command to execute.
    pub command: String,
    /// The arguments to pass to the command.
    pub args: Vec<String>,
    /// The environment variables to set for the command.
    pub env: EnvVars,
}

/// The suffixes of the names of variables whose values are secret.
pub open spec fn redacted_suffixes() -> Seq<Seq<char>> {
    seq![
        "KEY"@,
        "TOKEN"@,
        "PASSWORD"@,
        "SECRET"@,
        "PASS"@,
        "CREDENTIALS"@,
        "LICENSE"@,
    ]
}

pub open spec fn is_secret_name(name: Seq<char>) -> bool {
    exists|i: int| 0 <= i < redacted_suffixes().len() && has_suffix(name, #[trigger] redacted_suffixes()[i])
}

/// Whether the value of the variable `env_var_name` must not be shown.
pub fn should_redact(env_var_name: &str) -> (r: bool)
    ensures
        r == is_secret_name(env_var_name@),
{
    let suffixes = ["KEY", "TOKEN", "PASSWORD", "SECRET", "PASS", "CREDENTIALS", "LICENSE"];
    let mut i: usize = 0;
    while i < 7
        invariant
            i <= 7,
            suffixes@.len() == 7,
            forall|k: int| 0 <= k < 7 ==> (#[trigger] suffixes@[k])@ == redacted_suffixes()[k],
            forall|k: int| 0 <= k < i ==> !has_suffix(env_var_name@, #[trigger] redacted_suffixes()[k]),
        decreases 7 - i,
    {
        if ends_with_str(env_var_name, suffixes[i]) {
            return true;
        }
        i += 1;
    }
    false
}

/// The text shown in place of a secret value.
pub open spec fn redacted_text() -> Seq<char> {
    "[REDACTED]"@
}

impl Command {
    /// The environment as it may be shown: secret values are replaced.
    pub fn redacted_env(&self) -> (r: Vec<(String, String)>)
        ensures
            r@.len() == self.env@.len(),
            forall|i: int|
                0 <= i < r@.len() ==> (#[trigger] r@[i]).0@ == self.env@[i].0@ && r@[i].1@ == if is_secret_name(
                    self.env@[i].0@,
                ) {
                    redacted_text()
                } else {
                    self.env@[i].1@
                },
    {
        let mut out: Vec<(String, String)> = Vec::new();
        let mut i: usize = 0;
        while i < self.env.len()
            invariant
                i <= self.env.len(),
                out@.len() == i,
                forall|k: int|
                    0 <= k < i ==> (#[trigger] out@[k]).0@ == self.env@[k].0@ && out@[k].1@ == if is_secret_name(
                        self.env@[k].0@,
                    ) {
                        redacted_text()
                    } else {
                        self.env@[k].1@
                    },
            decreases self.env.len() - i,
        {
            let name = self.env[i].0.clone();
            let value = if should_redact(self.env[i].0.as_str()) {
                String::from_str("[REDACTED]")
            } else {
                self.env[i].1.clone()
            };
            out.push((name, value));
            i += 1;
        }
        out
    }
}

/// A label holding some code.
#[derive(Debug, Clone)]
pub struct CodeLabel {
    /// The source code to parse with Tree-sitter.
    pub code: String,
    /// The spans to display in the label.
    pub spans: Vec<CodeLabelSpan>,
    /// The range of the displayed label to include when filtering.
    pub filter_range: UIntSpan,
}

/// A span within a code label.
#[derive(Debug, Clone)]
pub enum CodeLabelSpan {
    /// A range into the parsed code.
    CodeRange(UIntSpan),
    /// A span holding a code literal.
    Literal(CodeLabelSpanLiteral),
}

/// A range of positions.
#[derive(Debug, Clone, Copy, PartialEq, Eq, Structural)]
pub struct UIntSpan {
    pub start: u32,
    pub end: u32,
}

impl Default for UIntSpan {
    fn default() -> (r: UIntSpan)
        ensures
            r.start == 0 && r.end == 0,
    {
        UIntSpan { start: 0, end: 0 }
    }
}

/// A span holding a code literal.
#[derive(Debug, Clone)]
pub struct CodeLabelSpanLiteral {
    /// The literal text.
    pub text: String,
    /// The name of the highlight to use for this literal.
    pub highlight_name: Option<String>,
}

} // verus!
