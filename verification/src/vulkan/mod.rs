//! Planning side of the Vulkan backend: what to allocate, which operations a
//! token takes, in which order and with which barriers.

pub mod alocador;
pub mod ambiente;
pub mod bancada;
pub mod barreiras;
pub mod contas;
pub mod device;
pub mod diagnostico;
pub mod erro;
pub mod estado;
pub mod gravacao;
pub mod layer_split;
pub mod layout;
pub mod leis_acessos;
pub mod leis_ensaio;
pub mod leis_escrita;
pub mod leis_formas;
pub mod leis_layout;
pub mod leis_maquina;
pub mod leis_mtp;
pub mod leis_passo;
pub mod leis_perfil;
pub mod leis_plano;
pub mod leis_rede;
pub mod leis_rollback;
pub mod leis_sentido;
pub mod leis_snapshot;
pub mod limites;
pub mod matmul;
pub mod model_gpu;
pub mod ops;
pub mod perfil;
pub mod pipelines;
pub mod planejar;
pub mod plano;
pub mod plano_mtp;
pub mod pstate;
pub mod recursos;
pub mod rede;
pub mod resident;
pub mod sentido;
pub mod sessao;
pub mod shard;
pub mod tensor;
pub mod uploader;
