mod data;
mod matrix;
mod network;
mod scalar;

pub use data::be_u32;
pub use data::gunzip_of;
pub use data::lemma_bad_magic_fails;
pub use data::lemma_bad_magic_images_fails;
pub use data::load_data;
pub use data::load_raw;
pub use data::raws_view;
pub use data::spec_features;
pub use data::spec_load;
pub use data::spec_one_hot;
pub use data::spec_pair_examples;
pub use data::spec_parse_mnist;
pub use data::DataError;
pub use data::MnistData;
pub use data::MnistModel;
pub use data::RawExample;
pub use data::RawExampleModel;
pub use data::MAGIC_IMAGES;
pub use data::MAGIC_LABELS;

pub use network::batch_end;
pub use network::batch_start;
pub use network::lemma_batch_of_one;
pub use network::lemma_batch_partition;
pub use network::lemma_import_wf;
pub use network::lemma_round_trip_forward;
pub use network::lemma_same_shape_sizes;
pub use network::lemma_same_shape_trans;
pub use network::lemma_snapshot_round_trip;
pub use network::merge_deltas;
pub use network::merge_gradients;
pub use network::param_count;
pub use network::spec_apply;
pub use network::spec_batch_deltas;
pub use network::spec_batch_gradients;
pub use network::spec_delta_record;
pub use network::spec_diff_run;
pub use network::spec_forward;
pub use network::spec_gradient;
pub use network::spec_gradient_record;
pub use network::spec_hidden_gradient;
pub use network::spec_layer;
pub use network::spec_output_gradient;
pub use network::spec_param_count;
pub use network::spec_param_prefix;
pub use network::spec_prev_size;
pub use network::spec_train;
pub use network::spec_train_from;
pub use network::BiasData;
pub use network::BiasModel;
pub use network::ModelError;
pub use network::NetModel;
pub use network::Network;
pub use network::NetworkData;
pub use network::SnapModel;
pub use network::TrainingData;
pub use network::WeightData;

pub use matrix::copy_vec;
pub use matrix::get_weight_delta;
pub use matrix::lemma_transposed_dot;
pub use matrix::mat_plus;
pub use matrix::mat_vec_mul;
pub use matrix::mats_view;
pub use matrix::spec_col_prefix;
pub use matrix::spec_dot_prefix;
pub use matrix::spec_mat_plus;
pub use matrix::spec_mat_vec_mul;
pub use matrix::spec_outer;
pub use matrix::spec_vec_plus;
pub use matrix::vec_plus;
pub use matrix::vecs_view;
pub use matrix::MatModel;
pub use matrix::Matrix;
pub use scalar::Scalar;
