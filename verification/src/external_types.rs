pub mod flume;
