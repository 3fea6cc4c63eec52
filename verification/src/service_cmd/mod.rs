pub mod scm_host;
