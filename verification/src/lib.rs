//! Class layouts, instances and memory-structure bookkeeping for a memory explorer.
mod address_expr;
mod bytes;
mod cleanup;
mod cycle;
mod definitions;
mod display;
mod editing;
mod embedding;
pub mod elements;
mod example;
mod field_selection;
mod filtering;
mod flat_view;
mod keyed;
mod modules;
mod naming;
mod nesting;
mod nodes;
mod numbers;
mod preview;
mod registry;
mod scan;
mod selection;
mod signatures;
mod structure;
mod text;
mod types;
mod ui_state;

pub use definitions::{ClassDefinition, EnumDefinition, EnumVariant, FieldDefinition, IdCounters};
pub use display::{MemoryDetailsPanel, MemoryNode, MemoryStructureDisplay};
pub use nodes::{ClassInstance, MemoryField};
pub use modules::{ModuleInfo, ModuleList};
pub use naming::{generate_unique_class_name, generate_unique_enum_name};
pub use numbers::parse_hex_u64;
pub use preview::{
    display_size_for, enum_of_field, enum_read_size, enum_suffix_for_field, enum_value_text, field_value_text,
    first_text_read_len, row_position_text, target_label_text, text_read_step, TextRead, array_header_text,
    pointer_label_text,
};
pub use registry::{ClassDefinitionRegistry, EnumDefinitionRegistry};
pub use scan::find_pattern_in;
pub use selection::SelectionManager;
pub use signatures::{resolve_signature_step, sanitize_pattern, signature_value, SignatureStep};
pub use embedding::EmbedChange;
pub use field_selection::FieldSelection;
pub use filtering::{module_name_matches, module_row_text, process_name_matches};
pub use structure::MemoryStructure;
pub use types::{FieldType, PointerTarget};
pub use flat_view::{class_header_sizes, context_menu_action, MenuButton};
pub use ui_state::{ActionView, AppSignature, ContextMenuAction, FieldKey, WindowManager};
pub use address_expr::{eval_address_expr, AddressEval};
pub use example::{create_complex_memory_structure, create_example_memory_structure};
