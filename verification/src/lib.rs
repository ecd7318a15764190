//! Model logic of the transformer families served by the runtime: cache
//! bookkeeping, launch planning, weight plans and data layout, each function
//! with a contract that Verus proves.

pub mod activation_law;
pub mod attention_law;
pub mod block_decode;
pub mod block_law;
pub mod block_program;
pub mod block_run;
pub mod block_turns;
pub mod cached_attention;
pub mod chunk_law;
pub mod device;
pub mod error;
pub mod expert_law;
pub mod falcon_block;
pub mod falcon_h1;
pub mod falcon_law;
pub mod flags;
pub mod gemma2;
pub mod gemma3n;
pub mod gemma;
pub mod gla;
pub mod gla_backward;
pub mod gla_chunks;
pub mod gla_features;
pub mod gla_gradient;
pub mod gla_graph;
pub mod gla_heads;
pub mod gla_laws;
pub mod gla_match;
pub mod gla_mega;
pub mod gla_sidecar;
pub mod gla_train;
pub mod glm5_2;
pub mod glmdsa;
pub mod gpt2;
pub mod gptj;
pub mod granite_moe_hybrid;
pub mod graph_flow;
pub mod head_map;
pub mod history;
pub mod hunyuan_vl;
pub mod hyv3;
pub mod inkling_small;
pub mod interns2_mobius;
pub mod json;
pub mod kernels;
pub mod kimi_heads;
pub mod kimi_k3;
pub mod kimi_law;
pub mod kimi_run;
pub mod kv_attention;
pub mod laguna;
pub mod layer_specs;
pub mod layout_law;
pub mod lfm2;
pub mod lfm2_cache;
pub mod lfm2_graph;
pub mod lfm2_law;
pub mod lfm2_moe;
pub mod lfm2_run;
pub mod lfm2_step;
pub mod lora;
pub mod lora_law;
pub mod mamba;
pub mod mamba_device;
pub mod mamba_heads;
pub mod maple;
pub mod mellum;
pub mod messages;
pub mod minicpm;
pub mod minicpm_law;
pub mod minicpm_pass;
pub mod minicpm_run;
pub mod minimax_m3;
pub mod modality;
pub mod name_law;
pub mod numeric;
pub mod order_law;
pub mod part_law;
pub mod pass_run;
pub mod plan_law;
pub mod ring;
pub mod routing;
pub mod rows;
pub mod scalar;
pub mod scan;
pub mod scan_law;
pub mod shape_law;
pub mod shortconv;
pub mod shortconv_law;
pub mod softmax_law;
pub mod stages;
pub mod surroundings;
pub mod tensor;
pub mod text;
pub mod weights;
