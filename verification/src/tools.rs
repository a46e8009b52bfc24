//! The built-in kernel tools and extensions: their identifiers, the summary
//! each tool shows, and what each extension registers.
use vstd::prelude::*;

verus! {

/// Submits a chapter's complete block sequence with revision conflict checks.
pub struct BlockSaveTool;

/// Applies fine-grained block operations on a chapter's latest blocks.
pub struct BlockEditTool;

/// Exports beat-level training data following the writing protocol.
pub struct TrainingExportTool;

/// The block writing extension.
pub struct BlocksExtension;

/// Assembles a context package under a token budget.
pub struct ContextAssembleTool;

/// The context assembly extension.
pub struct ContextAssemblyExtension;

/// Records a document save.
pub struct DocumentSaveTool;

/// Rebuilds the full-text search index from the canon.
pub struct RebuildIndexTool;

/// Checks continuity against the canon model.
pub struct ContinuityCheckTool;

/// Writes a backup of the current snapshot.
pub struct CreateBackupTool;

/// Generates an AI continuation candidate for a chapter.
pub struct AgentContinuationTool;

/// Runs one agent task from a prompt.
pub struct AgentRunTool;

/// The core tools extension.
pub struct CoreToolsExtension;

/// Matches the designed characters, settings and foreshadowing against the
/// current paragraph.
pub struct ContextHintsTool;

/// The context hints extension.
pub struct HintsExtension;

/// Parses a plugin manifest and evaluates its permissions.
pub struct PluginInstallTool;

/// Runs an operation of an installed plugin.
pub struct PluginOperationTool;

/// The plugin host extension.
pub struct PluginHostExtension;

/// Claims and runs one due queue job.
pub struct QueueTickTool;

/// The queue extension.
pub struct QueueExtension;

/// Records domain events, matches workflow rules and enqueues their actions.
pub struct WorkflowEngineSubscriber;

/// The workflow engine extension.
pub struct WorkflowEngineExtension;

/// All built-in extensions at once.
pub struct BuiltinsExtension;

impl BlockSaveTool {
    /// The tool's identifier.
    pub fn id(&self) -> (r: &'static str)
        ensures
            r@ == "block.save"@,
    {
        "block.save"
    }

    /// What the tool does.
    pub fn summary(&self) -> (r: &'static str)
        ensures
            r@ == "提交一章的完整块序列（正文/思考块），带版本冲突检测"@,
    {
        "提交一章的完整块序列（正文/思考块），带版本冲突检测"
    }
}

impl BlockEditTool {
    /// The tool's identifier.
    pub fn id(&self) -> (r: &'static str)
        ensures
            r@ == "block.edit"@,
    {
        "block.edit"
    }

    /// What the tool does.
    pub fn summary(&self) -> (r: &'static str)
        ensures
            r@ == "在章节最新块序列上应用 create/update/delete/move/setMarkup 操作"@,
    {
        "在章节最新块序列上应用 create/update/delete/move/setMarkup 操作"
    }
}

impl TrainingExportTool {
    /// The tool's identifier.
    pub fn id(&self) -> (r: &'static str)
        ensures
            r@ == "training.export"@,
    {
        "training.export"
    }

    /// What the tool does.
    pub fn summary(&self) -> (r: &'static str)
        ensures
            r@ == "按写作协议导出拍级训练数据（jsonl/sharegpt/alpaca/r1），默认丢弃 skip"@,
    {
        "按写作协议导出拍级训练数据（jsonl/sharegpt/alpaca/r1），默认丢弃 skip"
    }
}

impl BlocksExtension {
    /// The extension's identifier.
    pub fn id(&self) -> (r: &'static str)
        ensures
            r@ == "builtin.blocks"@,
    {
        "builtin.blocks"
    }

    /// The tools the extension registers, in order.
    pub fn tool_ids(&self) -> (r: Vec<&'static str>)
        ensures
            r@.len() == 3,
            r@[0]@ == "block.save"@,
            r@[1]@ == "block.edit"@,
            r@[2]@ == "training.export"@,
    {
        let mut r: Vec<&'static str> = Vec::new();
        r.push(BlockSaveTool.id());
        r.push(BlockEditTool.id());
        r.push(TrainingExportTool.id());
        r
    }
}

impl ContextAssembleTool {
    /// The tool's identifier.
    pub fn id(&self) -> (r: &'static str)
        ensures
            r@ == "context.assemble"@,
    {
        "context.assemble"
    }

    /// What the tool does.
    pub fn summary(&self) -> (r: &'static str)
        ensures
            r@ == "按优先级与 token 预算装配上下文包"@,
    {
        "按优先级与 token 预算装配上下文包"
    }
}

impl ContextAssemblyExtension {
    /// The extension's identifier.
    pub fn id(&self) -> (r: &'static str)
        ensures
            r@ == "builtin.context-assembly"@,
    {
        "builtin.context-assembly"
    }

    /// The tools the extension registers.
    pub fn tool_ids(&self) -> (r: Vec<&'static str>)
        ensures
            r@.len() == 1,
            r@[0]@ == "context.assemble"@,
    {
        let mut r: Vec<&'static str> = Vec::new();
        r.push(ContextAssembleTool.id());
        r
    }
}

impl DocumentSaveTool {
    /// The tool's identifier.
    pub fn id(&self) -> (r: &'static str)
        ensures
            r@ == "document.save"@,
    {
        "document.save"
    }

    /// What the tool does.
    pub fn summary(&self) -> (r: &'static str)
        ensures
            r@ == "记录一次文档保存（正文由编辑器事务提交，这里登记保存事件）"@,
    {
        "记录一次文档保存（正文由编辑器事务提交，这里登记保存事件）"
    }
}

impl RebuildIndexTool {
    /// The tool's identifier.
    pub fn id(&self) -> (r: &'static str)
        ensures
            r@ == "index.rebuild"@,
    {
        "index.rebuild"
    }

    /// What the tool does.
    pub fn summary(&self) -> (r: &'static str)
        ensures
            r@ == "用正史实体重建 FTS 检索索引"@,
    {
        "用正史实体重建 FTS 检索索引"
    }
}

impl ContinuityCheckTool {
    /// The tool's identifier.
    pub fn id(&self) -> (r: &'static str)
        ensures
            r@ == "continuity.check"@,
    {
        "continuity.check"
    }

    /// What the tool does.
    pub fn summary(&self) -> (r: &'static str)
        ensures
            r@ == "基于正史模型检查连续性问题"@,
    {
        "基于正史模型检查连续性问题"
    }
}

impl CreateBackupTool {
    /// The tool's identifier.
    pub fn id(&self) -> (r: &'static str)
        ensures
            r@ == "backup.create"@,
    {
        "backup.create"
    }

    /// What the tool does.
    pub fn summary(&self) -> (r: &'static str)
        ensures
            r@ == "把当前快照内容写入 result_objects 备份表"@,
    {
        "把当前快照内容写入 result_objects 备份表"
    }
}

impl AgentContinuationTool {
    /// The tool's identifier.
    pub fn id(&self) -> (r: &'static str)
        ensures
            r@ == "agent.continuation"@,
    {
        "agent.continuation"
    }

    /// What the tool does.
    pub fn summary(&self) -> (r: &'static str)
        ensures
            r@ == "按章节上下文生成 AI 续写候选"@,
    {
        "按章节上下文生成 AI 续写候选"
    }
}

impl AgentRunTool {
    /// The tool's identifier.
    pub fn id(&self) -> (r: &'static str)
        ensures
            r@ == "agent.run"@,
    {
        "agent.run"
    }

    /// What the tool does.
    pub fn summary(&self) -> (r: &'static str)
        ensures
            r@ == "按给定的提示词执行一次 Agent 任务"@,
    {
        "按给定的提示词执行一次 Agent 任务"
    }
}

impl CoreToolsExtension {
    /// The extension's identifier.
    pub fn id(&self) -> (r: &'static str)
        ensures
            r@ == "builtin.core-tools"@,
    {
        "builtin.core-tools"
    }

    /// The tools the extension registers, in order.
    pub fn tool_ids(&self) -> (r: Vec<&'static str>)
        ensures
            r@.len() == 6,
            r@[0]@ == "document.save"@,
            r@[1]@ == "index.rebuild"@,
            r@[2]@ == "continuity.check"@,
            r@[3]@ == "backup.create"@,
            r@[4]@ == "agent.continuation"@,
            r@[5]@ == "agent.run"@,
    {
        let mut r: Vec<&'static str> = Vec::new();
        r.push(DocumentSaveTool.id());
        r.push(RebuildIndexTool.id());
        r.push(ContinuityCheckTool.id());
        r.push(CreateBackupTool.id());
        r.push(AgentContinuationTool.id());
        r.push(AgentRunTool.id());
        r
    }
}

impl ContextHintsTool {
    /// The tool's identifier.
    pub fn id(&self) -> (r: &'static str)
        ensures
            r@ == "context.hints"@,
    {
        "context.hints"
    }

    /// What the tool does.
    pub fn summary(&self) -> (r: &'static str)
        ensures
            r@ == "按当前段落匹配预先设计的人物、设定和伏笔"@,
    {
        "按当前段落匹配预先设计的人物、设定和伏笔"
    }
}

impl HintsExtension {
    /// The extension's identifier.
    pub fn id(&self) -> (r: &'static str)
        ensures
            r@ == "builtin.hints"@,
    {
        "builtin.hints"
    }

    /// The tools the extension registers.
    pub fn tool_ids(&self) -> (r: Vec<&'static str>)
        ensures
            r@.len() == 1,
            r@[0]@ == "context.hints"@,
    {
        let mut r: Vec<&'static str> = Vec::new();
        r.push(ContextHintsTool.id());
        r
    }
}

impl PluginInstallTool {
    /// The tool's identifier.
    pub fn id(&self) -> (r: &'static str)
        ensures
            r@ == "plugin.install"@,
    {
        "plugin.install"
    }

    /// What the tool does.
    pub fn summary(&self) -> (r: &'static str)
        ensures
            r@ == "解析插件清单并评估权限交集"@,
    {
        "解析插件清单并评估权限交集"
    }
}

impl PluginOperationTool {
    /// The tool's identifier.
    pub fn id(&self) -> (r: &'static str)
        ensures
            r@ == "plugin.operation"@,
    {
        "plugin.operation"
    }

    /// What the tool does.
    pub fn summary(&self) -> (r: &'static str)
        ensures
            r@ == "执行一个已安装插件的操作"@,
    {
        "执行一个已安装插件的操作"
    }
}

impl PluginHostExtension {
    /// The extension's identifier.
    pub fn id(&self) -> (r: &'static str)
        ensures
            r@ == "builtin.plugin-host"@,
    {
        "builtin.plugin-host"
    }

    /// The tools the extension registers, in order.
    pub fn tool_ids(&self) -> (r: Vec<&'static str>)
        ensures
            r@.len() == 2,
            r@[0]@ == "plugin.install"@,
            r@[1]@ == "plugin.operation"@,
    {
        let mut r: Vec<&'static str> = Vec::new();
        r.push(PluginInstallTool.id());
        r.push(PluginOperationTool.id());
        r
    }
}

impl QueueTickTool {
    /// The tool's identifier.
    pub fn id(&self) -> (r: &'static str)
        ensures
            r@ == "queue.tick"@,
    {
        "queue.tick"
    }

    /// What the tool does.
    pub fn summary(&self) -> (r: &'static str)
        ensures
            r@ == "领取并执行一个到期队列任务"@,
    {
        "领取并执行一个到期队列任务"
    }
}

impl QueueExtension {
    /// The extension's identifier.
    pub fn id(&self) -> (r: &'static str)
        ensures
            r@ == "builtin.queue"@,
    {
        "builtin.queue"
    }

    /// The tools the extension registers.
    pub fn tool_ids(&self) -> (r: Vec<&'static str>)
        ensures
            r@.len() == 1,
            r@[0]@ == "queue.tick"@,
    {
        let mut r: Vec<&'static str> = Vec::new();
        r.push(QueueTickTool.id());
        r
    }
}

impl WorkflowEngineSubscriber {
    /// The subscriber's identifier.
    pub fn id(&self) -> (r: &'static str)
        ensures
            r@ == "builtin.workflow-engine"@,
    {
        "builtin.workflow-engine"
    }
}

impl WorkflowEngineExtension {
    /// The extension's identifier.
    pub fn id(&self) -> (r: &'static str)
        ensures
            r@ == "builtin.workflow-engine"@,
    {
        "builtin.workflow-engine"
    }
}

impl BuiltinsExtension {
    /// The extension's identifier.
    pub fn id(&self) -> (r: &'static str)
        ensures
            r@ == "builtin"@,
    {
        "builtin"
    }

    /// The extensions it registers, in order.
    pub fn extension_ids(&self) -> (r: Vec<&'static str>)
        ensures
            r@.len() == 8,
            r@[0]@ == "builtin.providers"@,
            r@[1]@ == "builtin.core-tools"@,
            r@[2]@ == "builtin.blocks"@,
            r@[3]@ == "builtin.workflow-engine"@,
            r@[4]@ == "builtin.queue"@,
            r@[5]@ == "builtin.hints"@,
            r@[6]@ == "builtin.context-assembly"@,
            r@[7]@ == "builtin.plugin-host"@,
    {
        let mut r: Vec<&'static str> = Vec::new();
        r.push(crate::providers::ProvidersExtension.id());
        r.push(CoreToolsExtension.id());
        r.push(BlocksExtension.id());
        r.push(WorkflowEngineExtension.id());
        r.push(QueueExtension.id());
        r.push(HintsExtension.id());
        r.push(ContextAssemblyExtension.id());
        r.push(PluginHostExtension.id());
        r
    }
}

} // verus!
