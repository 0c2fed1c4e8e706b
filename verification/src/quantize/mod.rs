pub mod point_provider_lab;
pub mod quantizer;
pub mod quantizer_celebi;
pub mod quantizer_map;
pub mod quantizer_wsmeans;
pub mod quantizer_wu;
