use vstd::prelude::*;

verus! {

/// Where the records come from.
#[derive(Debug)]
pub enum SourceConfig {
    File { path: String },
    Kafka { brokers: String, group_id: String, topic: String },
}

/// One processor of the chain.
#[derive(Debug)]
pub enum ProcessorConfig {
    PiiMasker { mode: String, use_ner: bool },
}

/// Where batches, or dead letters, go.
#[derive(Debug)]
pub enum SinkConfig {
    File { path: String },
    Cloud { url: String },
}

/// The description of a run.
#[derive(Debug)]
pub struct PipelineConfig {
    pub source: SourceConfig,
    pub processors: Vec<ProcessorConfig>,
    pub sink: SinkConfig,
    pub dlq: Option<SinkConfig>,
    pub batch_size: usize,
}

/// The batch size of a run that names none.
pub fn default_batch_size() -> (n: usize)
    ensures
        n == 10000,
{
    10000
}

impl PipelineConfig {
    /// A description with the default batch size, no processors and no
    /// dead-letter queue.
    pub fn new(source: SourceConfig, sink: SinkConfig) -> (config: PipelineConfig)
        ensures
            config.source == source,
            config.sink == sink,
            config.processors@.len() == 0,
            config.dlq is None,
            config.batch_size == 10000,
    {
        PipelineConfig {
            source,
            processors: Vec::new(),
            sink,
            dlq: None,
            batch_size: default_batch_size(),
        }
    }
}

} // verus!
