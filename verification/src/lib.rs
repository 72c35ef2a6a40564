pub mod data_type;
pub mod enumerations;
pub mod id_table;
pub mod interpreter;
pub mod shader;
pub mod compiler;
pub mod shader_type;
pub mod descriptor_requirements;
pub mod descriptor_set_data;
pub mod operation;
pub mod device_selection;
