pub mod cd;
pub mod compiler;
pub mod history;
pub mod shellname;
pub mod tokenizer;
pub mod touch;

pub use cd::{cd_target, cd_target_with_home};
pub use compiler::{
    compile_line, compile_pipeline, compile_segment, is_builtin, is_valid_command_line,
    CompileError, Segment, Step,
};
pub use history::HistoryEntry;
pub use shellname::{render_prompt, ShellName};
pub use tokenizer::Tokenizer;
pub use touch::{parse_command, touch_plan, TimeField, TouchError, TouchPass, TouchPlan};
