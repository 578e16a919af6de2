use std::collections::HashMap;
use lib::textmap::TextMap;
use lib::automation::error::AutomationError;
use lib::automation::task::{Task, TaskType, TaskPriority, TaskState, TaskResult, FileOperation, TransformType};
use lib::automation::workflow::{Workflow, WorkflowState, WorkflowExecution, ErrorHandling};
use lib::automation::scheduler::TaskScheduler;
use lib::automation::engine::WorkflowEngine;
use lib::automation::trigger::{Trigger, TriggerType, TriggerManager, FileWatchEvent};


// ========================================================================
// Task 测试
// ========================================================================

/// 测试任务创建
#[test]
fn test_task_creation() {
    let task = Task::new(1, "测试任务", TaskType::Shell {
        command: "echo hello".to_string(),
    })
    .with_description("这是一个测试任务")
    .with_priority(TaskPriority::High)
    .with_param("key1", "value1")
    .with_max_retries(5)
    .with_timeout(60_000);

    assert_eq!(task.id, 1);
    assert_eq!(task.name, "测试任务");
    assert_eq!(task.description, "这是一个测试任务");
    assert_eq!(task.priority, TaskPriority::High);
    assert_eq!(task.state, TaskState::Pending);
    assert_eq!(task.retry_count, 0);
    assert_eq!(task.max_retries, 5);
    assert_eq!(task.timeout_ms, 60_000);
    assert_eq!(task.params.get("key1"), Some(&"value1".to_string()));
    assert!(task.result.is_none());
    assert!(task.error.is_none());
    assert!(task.started_at.is_none());
    assert!(task.completed_at.is_none());
}

/// 测试任务状态转换
#[test]
fn test_task_state_transitions() {
    let mut task = Task::new(1, "测试", TaskType::Custom {
        handler: "test".to_string(),
    });

    // Pending -> Running
    assert!(task.transition_to(TaskState::Running).is_ok());
    assert_eq!(task.state, TaskState::Running);

    // Running -> Paused
    assert!(task.transition_to(TaskState::Paused).is_ok());
    assert_eq!(task.state, TaskState::Paused);

    // Paused -> Running
    assert!(task.transition_to(TaskState::Running).is_ok());
    assert_eq!(task.state, TaskState::Running);

    // Running -> Completed
    assert!(task.transition_to(TaskState::Completed).is_ok());
    assert_eq!(task.state, TaskState::Completed);

    // Completed -> Running 应该失败
    assert!(task.transition_to(TaskState::Running).is_err());
}

/// 测试任务结果
#[test]
fn test_task_result() {
    let success_result = TaskResult::success("操作成功");
    assert!(success_result.success);
    assert_eq!(success_result.output, "操作成功");
    assert!(success_result.data.is_none());

    let failure_result = TaskResult::failure("操作失败");
    assert!(!failure_result.success);
    assert_eq!(failure_result.output, "");

    // 带元数据的结果
    let mut result = TaskResult::success("带元数据");
    result.metadata.insert("code", "200");
    assert_eq!(result.metadata.get("code"), Some(&"200".to_string()));
}

/// 测试任务依赖
#[test]
fn test_task_with_dependencies() {
    let task = Task::new(2, "依赖任务", TaskType::Custom {
        handler: "test".to_string(),
    })
    .with_dependency(1);

    assert_eq!(task.dependencies, vec![1]);
}

// ========================================================================
// WorkflowEngine 测试
// ========================================================================

/// 测试注册工作流
#[test]
fn test_register_workflow() {
    let mut engine = WorkflowEngine::new();

    let workflow = Workflow::new("wf-1", "测试工作流")
        .with_description("用于测试的工作流")
        .with_variable("env", "test")
        .with_task(Task::new(1, "任务1", TaskType::Shell {
            command: "echo 1".to_string(),
        }))
        .with_task(Task::new(2, "任务2", TaskType::Shell {
            command: "echo 2".to_string(),
        }));

    assert!(engine.register_workflow(workflow).is_ok());
    assert_eq!(engine.list_workflows().len(), 1);

    // 重复注册应该失败
    let dup_workflow = Workflow::new("wf-1", "重复工作流");
    assert!(engine.register_workflow(dup_workflow).is_err());
}

/// 测试执行简单工作流
#[test]
fn test_execute_simple_workflow() {
    let mut engine = WorkflowEngine::new();

    let workflow = Workflow::new("simple-wf", "简单工作流")
        .with_task(Task::new(1, "任务1", TaskType::Shell {
            command: "echo hello".to_string(),
        }))
        .with_task(Task::new(2, "任务2", TaskType::Http {
            method: "GET".to_string(),
            url: "http://example.com".to_string(),
            headers: TextMap::new(),
            body: None,
        }));

    engine.register_workflow(workflow).unwrap();

    let exec_id = engine.execute("simple-wf", TextMap::new()).unwrap();
    let execution = engine.result(&exec_id).unwrap();

    assert_eq!(execution.state, WorkflowState::Completed);
    assert_eq!(execution.completed_tasks.len(), 2);
    assert!(execution.completed_tasks.contains(&1));
    assert!(execution.completed_tasks.contains(&2));
    assert!(execution.failed_tasks.is_empty());
}

/// 测试执行带依赖的工作流
#[test]
fn test_execute_workflow_with_dependencies() {
    let mut engine = WorkflowEngine::new();

    // 任务 3 依赖任务 1 和任务 2
    let workflow = Workflow::new("dep-wf", "依赖工作流")
        .with_task(Task::new(1, "基础任务1", TaskType::Shell {
            command: "echo 1".to_string(),
        }))
        .with_task(Task::new(2, "基础任务2", TaskType::Shell {
            command: "echo 2".to_string(),
        }))
        .with_task(
            Task::new(3, "依赖任务", TaskType::Transform {
                input_var: "result".to_string(),
                output_var: "output".to_string(),
                transform: TransformType::JsonParse,
            })
            .with_dependency(1)
            .with_dependency(2),
        );

    engine.register_workflow(workflow).unwrap();

    let exec_id = engine.execute("dep-wf", TextMap::new()).unwrap();
    let execution = engine.result(&exec_id).unwrap();

    assert_eq!(execution.state, WorkflowState::Completed);
    assert_eq!(execution.completed_tasks.len(), 3);
}

/// 测试暂停/恢复工作流
#[test]
fn test_pause_resume_workflow() {
    let mut engine = WorkflowEngine::new();

    let workflow = Workflow::new("pause-wf", "暂停测试工作流")
        .with_task(Task::new(1, "任务1", TaskType::Wait { duration_ms: 1000 }));

    engine.register_workflow(workflow).unwrap();
    let _exec_id = engine.execute("pause-wf", TextMap::new()).unwrap();

    // 执行完成后暂停应该失败（因为已经完成了）
    // 先测试在 Running 状态下的暂停
    // 注意：同步引擎中执行是立即完成的，所以我们直接测试状态转换逻辑
    // 创建一个模拟的运行中执行实例
    let mut running_exec = WorkflowExecution::new("manual-exec", "pause-wf");
    running_exec.state = WorkflowState::Running;
    engine.insert_execution(running_exec);

    // 暂停
    assert!(engine.pause("manual-exec").is_ok());
    assert_eq!(engine.status("manual-exec").unwrap(), WorkflowState::Paused);

    // 恢复
    assert!(engine.resume("manual-exec").is_ok());
    assert_eq!(engine.status("manual-exec").unwrap(), WorkflowState::Running);

    // 再次暂停
    assert!(engine.pause("manual-exec").is_ok());
    assert_eq!(engine.status("manual-exec").unwrap(), WorkflowState::Paused);

    // 取消
    assert!(engine.cancel("manual-exec").is_ok());
    assert_eq!(engine.status("manual-exec").unwrap(), WorkflowState::Cancelled);

    // 已取消的执行不能再暂停
    assert!(engine.pause("manual-exec").is_err());
    assert!(engine.resume("manual-exec").is_err());
}

/// 测试取消工作流
#[test]
fn test_cancel_workflow() {
    let mut engine = WorkflowEngine::new();

    let workflow = Workflow::new("cancel-wf", "取消测试工作流")
        .with_task(Task::new(1, "任务1", TaskType::Shell {
            command: "echo 1".to_string(),
        }));

    engine.register_workflow(workflow).unwrap();

    // 创建运行中的执行实例
    let mut running_exec = WorkflowExecution::new("cancel-exec", "cancel-wf");
    running_exec.state = WorkflowState::Running;
    engine.insert_execution(running_exec);

    assert!(engine.cancel("cancel-exec").is_ok());
    assert_eq!(
        engine.status("cancel-exec").unwrap(),
        WorkflowState::Cancelled
    );
}

/// 测试工作流不存在
#[test]
fn test_workflow_not_found() {
    let mut engine = WorkflowEngine::new();

    // 执行不存在的工作流
    let result = engine.execute("nonexistent", TextMap::new());
    assert!(matches!(result, Err(AutomationError::WorkflowNotFound(_))));

    // 查询不存在的执行
    let result = engine.status("nonexistent-exec");
    assert!(matches!(result, Err(AutomationError::ExecutionNotFound(_))));

    // 删除不存在的工作流
    let result = engine.remove_workflow("nonexistent");
    assert!(matches!(result, Err(AutomationError::WorkflowNotFound(_))));
}

/// 测试列出工作流
#[test]
fn test_list_workflows() {
    let mut engine = WorkflowEngine::new();

    assert!(engine.list_workflows().is_empty());

    engine
        .register_workflow(Workflow::new("wf-1", "工作流1").with_task(Task::new(
            1,
            "任务1",
            TaskType::Custom {
                handler: "h1".to_string(),
            },
        )))
        .unwrap();

    engine
        .register_workflow(Workflow::new("wf-2", "工作流2").with_task(Task::new(
            2,
            "任务2",
            TaskType::Custom {
                handler: "h2".to_string(),
            },
        )))
        .unwrap();

    let workflows = engine.list_workflows();
    assert_eq!(workflows.len(), 2);
}

/// 测试删除工作流
#[test]
fn test_remove_workflow() {
    let mut engine = WorkflowEngine::new();

    engine
        .register_workflow(Workflow::new("wf-remove", "待删除工作流").with_task(Task::new(
            1,
            "任务1",
            TaskType::Custom {
                handler: "h".to_string(),
            },
        )))
        .unwrap();

    assert_eq!(engine.list_workflows().len(), 1);

    assert!(engine.remove_workflow("wf-remove").is_ok());
    assert_eq!(engine.list_workflows().len(), 0);

    // 再次删除应该失败
    assert!(engine.remove_workflow("wf-remove").is_err());
}

/// 测试循环依赖检测
#[test]
fn test_workflow_circular_dependency() {
    let mut engine = WorkflowEngine::new();

    // 任务 1 依赖任务 2，任务 2 依赖任务 1 -> 循环
    let workflow = Workflow::new("cycle-wf", "循环依赖工作流")
        .with_task(
            Task::new(1, "任务1", TaskType::Custom {
                handler: "h1".to_string(),
            })
            .with_dependency(2),
        )
        .with_task(
            Task::new(2, "任务2", TaskType::Custom {
                handler: "h2".to_string(),
            })
            .with_dependency(1),
        );

    engine.register_workflow(workflow).unwrap();

    let result = engine.execute("cycle-wf", TextMap::new());
    assert!(matches!(result, Err(AutomationError::CircularDependency)));
}

/// 测试重复任务 ID
#[test]
fn test_workflow_duplicate_task_id() {
    let mut engine = WorkflowEngine::new();

    let workflow = Workflow::new("dup-tasks", "重复任务ID")
        .with_task(Task::new(1, "任务1", TaskType::Custom {
            handler: "h1".to_string(),
        }))
        .with_task(Task::new(1, "任务1-重复", TaskType::Custom {
            handler: "h2".to_string(),
        }));

    let result = engine.register_workflow(workflow);
    assert!(matches!(result, Err(AutomationError::InvalidTaskDefinition(_))));
}

/// 测试执行参数传递
#[test]
fn test_execute_with_params() {
    let mut engine = WorkflowEngine::new();

    let workflow = Workflow::new("param-wf", "参数测试")
        .with_variable("default_key", "default_value")
        .with_task(Task::new(1, "任务1", TaskType::Shell {
            command: "echo test".to_string(),
        }));

    engine.register_workflow(workflow).unwrap();

    let mut params = TextMap::new();
    params.insert("input_key", "input_value");

    let exec_id = engine.execute("param-wf", params).unwrap();
    let execution = engine.result(&exec_id).unwrap();

    // 验证变量合并
    assert_eq!(
        execution.context.variables.get("default_key"),
        Some(&"default_value".to_string())
    );
    assert_eq!(
        execution.context.variables.get("input_key"),
        Some(&"input_value".to_string())
    );
}

// ========================================================================
// TaskScheduler 测试
// ========================================================================

/// 测试添加任务
#[test]
fn test_add_task() {
    let mut scheduler = TaskScheduler::new();

    let task = Task::new(1, "任务1", TaskType::Custom {
        handler: "test".to_string(),
    });
    assert!(scheduler.add_task(task).is_ok());
    assert_eq!(scheduler.total_count(), 1);
    assert_eq!(scheduler.ready_count(), 1);
}

/// 测试优先级排序
#[test]
fn test_next_task_priority() {
    let mut scheduler = TaskScheduler::new();

    // 添加不同优先级的任务
    let low = Task::new(1, "低优先级", TaskType::Custom {
        handler: "low".to_string(),
    })
    .with_priority(TaskPriority::Low);

    let high = Task::new(2, "高优先级", TaskType::Custom {
        handler: "high".to_string(),
    })
    .with_priority(TaskPriority::High);

    let critical = Task::new(3, "关键优先级", TaskType::Custom {
        handler: "critical".to_string(),
    })
    .with_priority(TaskPriority::Critical);

    let normal = Task::new(4, "普通优先级", TaskType::Custom {
        handler: "normal".to_string(),
    })
    .with_priority(TaskPriority::Normal);

    scheduler.add_task(low).unwrap();
    scheduler.add_task(high).unwrap();
    scheduler.add_task(critical).unwrap();
    scheduler.add_task(normal).unwrap();

    // 按优先级从高到低获取
    assert_eq!(scheduler.next_task(), Some(3)); // Critical
    assert_eq!(scheduler.next_task(), Some(2)); // High
    assert_eq!(scheduler.next_task(), Some(4)); // Normal
    assert_eq!(scheduler.next_task(), Some(1)); // Low
    assert_eq!(scheduler.next_task(), None); // 队列已空
}

/// 测试完成任务解锁依赖
#[test]
fn test_complete_task_unblocks_deps() {
    let mut scheduler = TaskScheduler::new();

    // 任务 3 依赖任务 1 和任务 2
    scheduler
        .add_task(Task::new(1, "任务1", TaskType::Custom {
            handler: "t1".to_string(),
        }))
        .unwrap();
    scheduler
        .add_task(Task::new(2, "任务2", TaskType::Custom {
            handler: "t2".to_string(),
        }))
        .unwrap();
    scheduler
        .add_task(
            Task::new(3, "任务3", TaskType::Custom {
                handler: "t3".to_string(),
            })
            .with_dependency(1)
            .with_dependency(2),
        )
        .unwrap();

    // 任务 1 和 2 就绪，任务 3 等待
    assert_eq!(scheduler.ready_count(), 2);

    // 完成任务 1
    let unblocked = scheduler
        .complete_task(1, TaskResult::success("done"))
        .unwrap();
    assert!(unblocked.is_empty()); // 任务 3 仍然依赖任务 2
    assert_eq!(scheduler.ready_count(), 1); // 只有任务 2 就绪

    // 完成任务 2
    let unblocked = scheduler
        .complete_task(2, TaskResult::success("done"))
        .unwrap();
    assert_eq!(unblocked, vec![3]); // 任务 3 被解锁
    assert_eq!(scheduler.ready_count(), 1); // 任务 3 就绪

    // 获取任务 3
    assert_eq!(scheduler.next_task(), Some(3));
}

/// 测试循环依赖检测
#[test]
fn test_circular_dependency_detection() {
    let mut scheduler = TaskScheduler::new();

    // 创建循环依赖：1 -> 2 -> 3 -> 1
    // 注意：add_task 要求依赖先存在，所以需要特殊处理
    // 先添加不依赖任何任务的节点
    scheduler
        .add_task(Task::new(1, "任务1", TaskType::Custom {
            handler: "t1".to_string(),
        }))
        .unwrap();

    // 手动构建循环依赖
    scheduler.set_dependencies(1, vec![3]);
    scheduler.set_dependencies(3, vec![2]);
    scheduler.set_dependencies(2, vec![1]);

    // 添加任务 2 和 3
    scheduler.insert_task(
        Task::new(2, "任务2", TaskType::Custom {
            handler: "t2".to_string(),
        }),
    );
    scheduler.insert_task(
        Task::new(3, "任务3", TaskType::Custom {
            handler: "t3".to_string(),
        }),
    );

    assert!(scheduler.has_cycle());
}

/// 测试无循环依赖
#[test]
fn test_no_circular_dependency() {
    let mut scheduler = TaskScheduler::new();

    scheduler
        .add_task(Task::new(1, "任务1", TaskType::Custom {
            handler: "t1".to_string(),
        }))
        .unwrap();
    scheduler
        .add_task(Task::new(2, "任务2", TaskType::Custom {
            handler: "t2".to_string(),
        }))
        .unwrap();
    scheduler
        .add_task(
            Task::new(3, "任务3", TaskType::Custom {
                handler: "t3".to_string(),
            })
            .with_dependency(1)
            .with_dependency(2),
        )
        .unwrap();

    assert!(!scheduler.has_cycle());
}

/// 测试拓扑排序
#[test]
fn test_topological_order() {
    let mut scheduler = TaskScheduler::new();

    // 构建依赖链: 1 -> 3 -> 5, 2 -> 4 -> 5
    scheduler
        .add_task(Task::new(1, "任务1", TaskType::Custom {
            handler: "t1".to_string(),
        }))
        .unwrap();
    scheduler
        .add_task(Task::new(2, "任务2", TaskType::Custom {
            handler: "t2".to_string(),
        }))
        .unwrap();
    scheduler
        .add_task(
            Task::new(3, "任务3", TaskType::Custom {
                handler: "t3".to_string(),
            })
            .with_dependency(1),
        )
        .unwrap();
    scheduler
        .add_task(
            Task::new(4, "任务4", TaskType::Custom {
                handler: "t4".to_string(),
            })
            .with_dependency(2),
        )
        .unwrap();
    scheduler
        .add_task(
            Task::new(5, "任务5", TaskType::Custom {
                handler: "t5".to_string(),
            })
            .with_dependency(3)
            .with_dependency(4),
        )
        .unwrap();

    let order = scheduler.topological_order().unwrap();

    // 验证拓扑排序的正确性
    let pos: HashMap<u64, usize> = order.iter().enumerate().map(|(i, &id)| (id, i)).collect();

    // 1 必须在 3 之前
    assert!(pos[&1] < pos[&3]);
    // 2 必须在 4 之前
    assert!(pos[&2] < pos[&4]);
    // 3 必须在 5 之前
    assert!(pos[&3] < pos[&5]);
    // 4 必须在 5 之前
    assert!(pos[&4] < pos[&5]);

    // 所有任务都在排序结果中
    assert_eq!(order.len(), 5);
}

/// 测试完成检查
#[test]
fn test_is_complete() {
    let mut scheduler = TaskScheduler::new();

    scheduler
        .add_task(Task::new(1, "任务1", TaskType::Custom {
            handler: "t1".to_string(),
        }))
        .unwrap();
    scheduler
        .add_task(Task::new(2, "任务2", TaskType::Custom {
            handler: "t2".to_string(),
        }))
        .unwrap();

    assert!(!scheduler.is_complete());

    scheduler
        .complete_task(1, TaskResult::success("done"))
        .unwrap();
    assert!(!scheduler.is_complete());

    scheduler
        .complete_task(2, TaskResult::success("done"))
        .unwrap();
    assert!(scheduler.is_complete());
}

/// 测试失败任务
#[test]
fn test_fail_task() {
    let mut scheduler = TaskScheduler::new();

    scheduler
        .add_task(Task::new(1, "任务1", TaskType::Custom {
            handler: "t1".to_string(),
        }))
        .unwrap();

    assert!(scheduler.fail_task(1, "出错了".to_string()).is_ok());
    assert!(scheduler.fail_task(999, "不存在".to_string()).is_err());
}

/// 测试依赖不存在的任务
#[test]
fn test_add_task_with_missing_dependency() {
    let mut scheduler = TaskScheduler::new();

    let task = Task::new(1, "任务1", TaskType::Custom {
        handler: "t1".to_string(),
    })
    .with_dependency(999); // 依赖不存在的任务

    let result = scheduler.add_task(task);
    assert!(matches!(
        result,
        Err(AutomationError::TaskDependencyNotFound(999))
    ));
}

// ========================================================================
// TriggerManager 测试
// ========================================================================

/// 测试注册触发器
#[test]
fn test_register_trigger() {
    let mut manager = TriggerManager::new();

    let trigger = Trigger::new(
        "trigger-1",
        "测试触发器",
        TriggerType::Manual,
        "wf-1",
    );

    assert!(manager.register(trigger).is_ok());
    assert_eq!(manager.list().len(), 1);

    let retrieved = manager.get("trigger-1").unwrap();
    assert_eq!(retrieved.name, "测试触发器");
    assert_eq!(retrieved.workflow_id, "wf-1");
    assert!(retrieved.enabled);
}

/// 测试启用/禁用触发器
#[test]
fn test_enable_disable_trigger() {
    let mut manager = TriggerManager::new();

    manager
        .register(Trigger::new(
            "trigger-2",
            "启用禁用测试",
            TriggerType::Manual,
            "wf-2",
        ))
        .unwrap();

    // 禁用
    assert!(manager.disable("trigger-2").is_ok());
    assert!(!manager.get("trigger-2").unwrap().enabled);

    // 启用
    assert!(manager.enable("trigger-2").is_ok());
    assert!(manager.get("trigger-2").unwrap().enabled);

    // 操作不存在的触发器
    assert!(manager.enable("nonexistent").is_err());
    assert!(manager.disable("nonexistent").is_err());
}

/// 测试手动触发检查
#[test]
fn test_check_manual_trigger() {
    let mut manager = TriggerManager::new();

    manager
        .register(Trigger::new(
            "manual-trigger",
            "手动触发器",
            TriggerType::Manual,
            "wf-manual",
        ))
        .unwrap();

    // 手动触发器不应该被自动触发
    let triggered = manager.check_triggers(1000, &[]);
    assert!(triggered.is_empty());
}

/// 测试事件触发检查
#[test]
fn test_check_event_trigger() {
    let mut manager = TriggerManager::new();

    manager
        .register(Trigger::new(
            "event-trigger",
            "事件触发器",
            TriggerType::Event {
                event_type: "deploy.done".to_string(),
                filter: None,
            },
            "wf-deploy",
        ))
        .unwrap();

    // 不匹配的事件
    let triggered = manager.check_triggers(1000, &["build.done".to_string()]);
    assert!(triggered.is_empty());

    // 匹配的事件
    let triggered = manager.check_triggers(1000, &["deploy.done".to_string()]);
    assert_eq!(triggered, vec!["wf-deploy".to_string()]);
}

/// 测试定时触发检查
#[test]
fn test_check_schedule_trigger() {
    let mut manager = TriggerManager::new();

    manager
        .register(Trigger::new(
            "schedule-trigger",
            "定时触发器",
            TriggerType::Schedule {
                cron: "0 * * * *".to_string(),
            },
            "wf-scheduled",
        ))
        .unwrap();

    // 首次应该触发（没有 last_triggered）
    let triggered = manager.check_triggers(1000, &[]);
    assert_eq!(triggered, vec!["wf-scheduled".to_string()]);
}

/// 测试禁用的触发器不会被触发
#[test]
fn test_disabled_trigger_not_fired() {
    let mut manager = TriggerManager::new();

    manager
        .register(Trigger::new(
            "disabled-trigger",
            "禁用触发器",
            TriggerType::Event {
                event_type: "test.event".to_string(),
                filter: None,
            },
            "wf-test",
        ))
        .unwrap();

    manager.disable("disabled-trigger").unwrap();

    let triggered = manager.check_triggers(1000, &["test.event".to_string()]);
    assert!(triggered.is_empty());
}

/// 测试列出触发器
#[test]
fn test_list_triggers() {
    let mut manager = TriggerManager::new();

    assert!(manager.list().is_empty());

    manager
        .register(Trigger::new("t1", "触发器1", TriggerType::Manual, "wf-1"))
        .unwrap();
    manager
        .register(Trigger::new("t2", "触发器2", TriggerType::Manual, "wf-2"))
        .unwrap();
    manager
        .register(Trigger::new("t3", "触发器3", TriggerType::Manual, "wf-3"))
        .unwrap();

    assert_eq!(manager.list().len(), 3);
}

/// 测试注销触发器
#[test]
fn test_unregister_trigger() {
    let mut manager = TriggerManager::new();

    manager
        .register(Trigger::new("t-remove", "待删除", TriggerType::Manual, "wf-1"))
        .unwrap();

    assert!(manager.unregister("t-remove").is_ok());
    assert!(manager.get("t-remove").is_none());

    // 再次注销应该失败
    assert!(manager.unregister("t-remove").is_err());
}

/// 测试文件监视触发器
#[test]
fn test_file_watch_trigger() {
    let mut manager = TriggerManager::new();

    manager
        .register(Trigger::new(
            "file-trigger",
            "文件监视",
            TriggerType::FileWatch {
                path: "/tmp/test".to_string(),
                event: FileWatchEvent::Modified,
            },
            "wf-file",
        ))
        .unwrap();

    // 不匹配的事件
    let triggered = manager.check_triggers(1000, &["file:created:/tmp/test".to_string()]);
    assert!(triggered.is_empty());

    // 匹配的事件
    let triggered = manager.check_triggers(1000, &["file:modified:/tmp/test".to_string()]);
    assert_eq!(triggered, vec!["wf-file".to_string()]);
}

/// 测试文件 Any 事件触发器
#[test]
fn test_file_watch_any_trigger() {
    let mut manager = TriggerManager::new();

    manager
        .register(Trigger::new(
            "file-any-trigger",
            "文件任意事件",
            TriggerType::FileWatch {
                path: "/tmp/test".to_string(),
                event: FileWatchEvent::Any,
            },
            "wf-file-any",
        ))
        .unwrap();

    // 任何文件事件都应该触发（同一触发器只触发一次）
    let triggered = manager.check_triggers(
        1000,
        &[
            "file:created:/tmp/test".to_string(),
            "file:modified:/tmp/test".to_string(),
            "file:deleted:/tmp/test".to_string(),
        ],
    );
    // 同一个触发器匹配多个事件，但只返回一次工作流 ID
    assert_eq!(triggered.len(), 1);
    assert_eq!(triggered[0], "wf-file-any".to_string());
}

// ========================================================================
// ErrorHandling 测试
// ========================================================================

/// 测试 FailFast 错误处理
#[test]
fn test_error_handling_fail_fast() {
    let mut engine = WorkflowEngine::new();

    // 任务 3 依赖任务 1，但任务 1 会失败
    // 在同步引擎中，所有任务默认成功，所以我们需要通过依赖不满足来测试
    let workflow = Workflow::new("failfast-wf", "FailFast 测试")
        .with_error_handling(ErrorHandling::FailFast)
        .with_task(Task::new(1, "任务1", TaskType::Shell {
            command: "fail".to_string(),
        }))
        .with_task(
            Task::new(2, "任务2", TaskType::Shell {
                command: "echo 2".to_string(),
            })
            .with_dependency(1),
        );

    engine.register_workflow(workflow).unwrap();

    let exec_id = engine.execute("failfast-wf", TextMap::new()).unwrap();
    let execution = engine.result(&exec_id).unwrap();

    // 所有任务应该成功（同步引擎模拟）
    assert_eq!(execution.state, WorkflowState::Completed);
}

/// 测试 ContinueOnError 错误处理
#[test]
fn test_error_handling_continue_on_error() {
    let mut engine = WorkflowEngine::new();

    let workflow = Workflow::new("continue-wf", "ContinueOnError 测试")
        .with_error_handling(ErrorHandling::ContinueOnError)
        .with_task(Task::new(1, "任务1", TaskType::Shell {
            command: "echo 1".to_string(),
        }))
        .with_task(Task::new(2, "任务2", TaskType::Shell {
            command: "echo 2".to_string(),
        }));

    engine.register_workflow(workflow).unwrap();

    let exec_id = engine.execute("continue-wf", TextMap::new()).unwrap();
    let execution = engine.result(&exec_id).unwrap();

    assert_eq!(execution.state, WorkflowState::Completed);
}

// ========================================================================
// AutomationError 测试
// ========================================================================

/// 测试错误类型 Display
#[test]
fn lib_test_error_display() {
    let err = AutomationError::WorkflowNotFound("wf-1".to_string());
    assert_eq!(err.message(), "工作流未找到: wf-1");

    let err = AutomationError::CircularDependency;
    assert_eq!(err.message(), "存在循环依赖");

    let err = AutomationError::TaskNotFound(42);
    assert_eq!(err.message(), "任务未找到: 42");
}

/// 测试 TaskPriority 排序
#[test]
fn test_task_priority_ordering() {
    assert!(TaskPriority::Critical > TaskPriority::High);
    assert!(TaskPriority::High > TaskPriority::Normal);
    assert!(TaskPriority::Normal > TaskPriority::Low);
    assert!(TaskPriority::Low < TaskPriority::Critical);
}

/// 测试 TaskState 判断
#[test]
fn test_task_state_equality() {
    assert_eq!(TaskState::Pending, TaskState::Pending);
    assert_ne!(TaskState::Pending, TaskState::Running);
    assert_eq!(TaskState::Completed, TaskState::Completed);
}

/// 测试 WorkflowState 判断
#[test]
fn test_workflow_state_equality() {
    assert_eq!(WorkflowState::Pending, WorkflowState::Pending);
    assert_ne!(WorkflowState::Running, WorkflowState::Completed);
}

/// 测试 Default 实现
#[test]
fn test_default_implementations() {
    let scheduler = TaskScheduler::default();
    assert_eq!(scheduler.total_count(), 0);

    let engine = WorkflowEngine::default();
    assert!(engine.list_workflows().is_empty());

    let manager = TriggerManager::default();
    assert!(manager.list().is_empty());
}

/// 测试复杂依赖链的拓扑排序
#[test]
fn test_complex_topological_order() {
    let mut scheduler = TaskScheduler::new();

    // 构建钻石依赖: 1 -> 2, 1 -> 3, 2 -> 4, 3 -> 4
    scheduler
        .add_task(Task::new(1, "根任务", TaskType::Custom {
            handler: "t1".to_string(),
        }))
        .unwrap();
    scheduler
        .add_task(
            Task::new(2, "分支A", TaskType::Custom {
                handler: "t2".to_string(),
            })
            .with_dependency(1),
        )
        .unwrap();
    scheduler
        .add_task(
            Task::new(3, "分支B", TaskType::Custom {
                handler: "t3".to_string(),
            })
            .with_dependency(1),
        )
        .unwrap();
    scheduler
        .add_task(
            Task::new(4, "汇合任务", TaskType::Custom {
                handler: "t4".to_string(),
            })
            .with_dependency(2)
            .with_dependency(3),
        )
        .unwrap();

    let order = scheduler.topological_order().unwrap();
    assert_eq!(order.len(), 4);

    let pos: HashMap<u64, usize> = order.iter().enumerate().map(|(i, &id)| (id, i)).collect();

    // 1 必须最先
    assert_eq!(pos[&1], 0);
    // 4 必须最后
    assert_eq!(pos[&4], 3);
    // 2 和 3 在中间
    assert!(pos[&2] < pos[&4]);
    assert!(pos[&3] < pos[&4]);
}

/// 测试空工作流执行
#[test]
fn test_execute_empty_workflow() {
    let mut engine = WorkflowEngine::new();

    let workflow = Workflow::new("empty-wf", "空工作流");
    engine.register_workflow(workflow).unwrap();

    let exec_id = engine.execute("empty-wf", TextMap::new()).unwrap();
    let execution = engine.result(&exec_id).unwrap();

    assert_eq!(execution.state, WorkflowState::Completed);
    assert!(execution.completed_tasks.is_empty());
}

/// 测试 Webhook 触发器不被自动触发
#[test]
fn test_webhook_trigger_not_auto_fired() {
    let mut manager = TriggerManager::new();

    manager
        .register(Trigger::new(
            "webhook-trigger",
            "Webhook 触发器",
            TriggerType::Webhook {
                path: "/hook".to_string(),
                method: "POST".to_string(),
            },
            "wf-webhook",
        ))
        .unwrap();

    let triggered = manager.check_triggers(1000, &["webhook".to_string()]);
    assert!(triggered.is_empty());
}

/// 测试多种触发器同时检查
#[test]
fn test_multiple_triggers_check() {
    let mut manager = TriggerManager::new();

    manager
        .register(Trigger::new(
            "event-a",
            "事件A",
            TriggerType::Event {
                event_type: "event.a".to_string(),
                filter: None,
            },
            "wf-a",
        ))
        .unwrap();

    manager
        .register(Trigger::new(
            "event-b",
            "事件B",
            TriggerType::Event {
                event_type: "event.b".to_string(),
                filter: None,
            },
            "wf-b",
        ))
        .unwrap();

    // 同时触发两个事件
    let triggered = manager.check_triggers(
        1000,
        &["event.a".to_string(), "event.b".to_string()],
    );

    assert_eq!(triggered.len(), 2);
    assert!(triggered.contains(&"wf-a".to_string()));
    assert!(triggered.contains(&"wf-b".to_string()));
}


// ---- further cases ----

#[test]
fn test_execute_params_override_variables() {
    let mut engine = WorkflowEngine::new();
    let workflow = Workflow::new("ov-wf", "覆盖")
        .with_variable("k", "from-workflow")
        .with_variable("only", "w")
        .with_task(Task::new(1, "任务1", TaskType::Wait { duration_ms: 5 }));
    engine.register_workflow(workflow).unwrap();
    let mut params = TextMap::new();
    params.insert("k", "from-params");
    let exec_id = engine.execute("ov-wf", params).unwrap();
    let execution = engine.result(&exec_id).unwrap();
    assert_eq!(execution.context.variables.get("k"), Some(&"from-params".to_string()));
    assert_eq!(execution.context.variables.get("only"), Some(&"w".to_string()));
    assert_eq!(execution.context.variables.len(), 2);
}

#[test]
fn test_execute_records_outputs_in_dependency_order() {
    let mut engine = WorkflowEngine::new();
    let workflow = Workflow::new("out-wf", "输出")
        .with_task(
            Task::new(1, "文件", TaskType::File {
                path: "/a".to_string(),
                operation: FileOperation::Write { content: "x\"y".to_string() },
            })
            .with_dependency(2),
        )
        .with_task(Task::new(2, "并行", TaskType::Parallel { tasks: vec![7, 8] }))
        .with_task(
            Task::new(3, "转换", TaskType::Transform {
                input_var: "i".to_string(),
                output_var: "o".to_string(),
                transform: TransformType::RegexReplace { pattern: "a".to_string(), replacement: "b".to_string() },
            })
            .with_dependency(1),
        )
        .with_task(Task::new(4, "调用", TaskType::AgentCall {
            agent_id: 9,
            method: "ping".to_string(),
            args: vec![],
        }));
    engine.register_workflow(workflow).unwrap();
    let exec_id = engine.execute("out-wf", TextMap::new()).unwrap();
    assert_eq!(exec_id, "exec-1");
    let execution = engine.result(&exec_id).unwrap();
    assert_eq!(execution.state, WorkflowState::Completed);
    assert!(execution.failed_tasks.is_empty());
    assert_eq!(execution.completed_tasks.len(), 4);
    assert_eq!(execution.context.current_task_id, None);
    let pos = |id: u64| execution.completed_tasks.iter().position(|&t| t == id).unwrap();
    assert!(pos(2) < pos(1));
    assert!(pos(1) < pos(3));
    let output = |id: u64| {
        execution.context.task_results.iter().find(|r| r.0 == id).map(|r| r.1.output.clone()).unwrap()
    };
    assert_eq!(output(1), "文件操作 Write { content: \"x\\\"y\" } on /a");
    assert_eq!(output(2), "并行执行: [7, 8]");
    assert_eq!(output(3), "数据转换: RegexReplace { pattern: \"a\", replacement: \"b\" }");
    assert_eq!(output(4), "调用 Agent 9 的 ping 方法");
    assert!(execution.context.task_results.iter().all(|r| r.1.success));
}

#[test]
fn test_execution_numbers_are_used_up_by_a_cycle() {
    let mut engine = WorkflowEngine::new();
    engine
        .register_workflow(
            Workflow::new("cyc", "循环")
                .with_task(Task::new(1, "a", TaskType::Custom { handler: "h".to_string() }).with_dependency(1)),
        )
        .unwrap();
    engine
        .register_workflow(Workflow::new("ok", "正常").with_task(Task::new(1, "a", TaskType::Custom {
            handler: "h".to_string(),
        })))
        .unwrap();
    assert!(matches!(engine.execute("cyc", TextMap::new()), Err(AutomationError::CircularDependency)));
    assert_eq!(engine.execute("ok", TextMap::new()).unwrap(), "exec-2");
    assert_eq!(engine.execute("ok", TextMap::new()).unwrap(), "exec-3");
    assert_eq!(engine.status("exec-2").unwrap(), WorkflowState::Completed);
    assert!(engine.result("exec-1").is_err());
}

#[test]
fn test_register_workflow_errors() {
    let mut engine = WorkflowEngine::new();
    let dangling = Workflow::new("d", "悬空")
        .with_task(Task::new(1, "a", TaskType::Custom { handler: "h".to_string() }).with_dependency(5));
    assert_eq!(engine.register_workflow(dangling), Err(AutomationError::TaskDependencyNotFound(5)));
    let dup = Workflow::new("x", "重复")
        .with_task(Task::new(4, "a", TaskType::Custom { handler: "h".to_string() }))
        .with_task(Task::new(4, "b", TaskType::Custom { handler: "h".to_string() }));
    assert_eq!(
        engine.register_workflow(dup),
        Err(AutomationError::InvalidTaskDefinition("任务 ID 4 重复".to_string()))
    );
    engine.register_workflow(Workflow::new("x", "一")).unwrap();
    assert_eq!(
        engine.register_workflow(Workflow::new("x", "二")),
        Err(AutomationError::InvalidTaskDefinition("工作流 x 已存在".to_string()))
    );
    assert_eq!(engine.list_workflows().len(), 1);
}

#[test]
fn test_state_change_messages() {
    let mut engine = WorkflowEngine::new();
    engine.register_workflow(Workflow::new("w", "w")).unwrap();
    let id = engine.execute("w", TextMap::new()).unwrap();
    assert_eq!(
        engine.pause(&id),
        Err(AutomationError::InvalidStateTransition("无法从 Completed 暂停".to_string()))
    );
    assert_eq!(
        engine.resume(&id),
        Err(AutomationError::InvalidStateTransition("无法从 Completed 恢复".to_string()))
    );
    assert_eq!(
        engine.cancel(&id),
        Err(AutomationError::InvalidStateTransition("无法从 Completed 取消".to_string()))
    );
    assert_eq!(engine.pause("nope"), Err(AutomationError::ExecutionNotFound("nope".to_string())));
    let mut paused = WorkflowExecution::new("p", "w");
    paused.state = WorkflowState::Paused;
    engine.insert_execution(paused);
    assert!(engine.cancel("p").is_ok());
    assert_eq!(engine.status("p").unwrap(), WorkflowState::Cancelled);
}

#[test]
fn test_allocate_task_ids_in_turn() {
    let mut engine = WorkflowEngine::new();
    assert_eq!(engine.allocate_task_id(), 1);
    assert_eq!(engine.allocate_task_id(), 2);
    assert_eq!(engine.allocate_task_id(), 3);
}

#[test]
fn test_schedule_trigger_after_last_firing() {
    let mut manager = TriggerManager::new();
    let mut t = Trigger::new("s", "定时", TriggerType::Schedule { cron: "* * * * *".to_string() }, "wf-s");
    t.last_triggered = Some(1000);
    manager.register(t).unwrap();
    assert!(manager.check_triggers(1000, &[]).is_empty());
    assert_eq!(manager.check_triggers(1001, &[]), vec!["wf-s".to_string()]);
}

#[test]
fn test_triggers_fire_in_registration_order_and_replace_in_place() {
    let mut manager = TriggerManager::new();
    let ev = |name: &str| TriggerType::Event { event_type: name.to_string(), filter: None };
    manager.register(Trigger::new("a", "A", ev("go"), "wf-a")).unwrap();
    manager.register(Trigger::new("b", "B", ev("go"), "wf-b")).unwrap();
    manager.register(Trigger::new("c", "C", ev("go"), "wf-a")).unwrap();
    assert_eq!(
        manager.check_triggers(0, &["go".to_string()]),
        vec!["wf-a".to_string(), "wf-b".to_string(), "wf-a".to_string()]
    );
    manager.register(Trigger::new("a", "A2", ev("go"), "wf-z")).unwrap();
    assert_eq!(manager.list().len(), 3);
    assert_eq!(
        manager.check_triggers(0, &["go".to_string()]),
        vec!["wf-z".to_string(), "wf-b".to_string(), "wf-a".to_string()]
    );
    assert_eq!(manager.unregister("zz"), Err(AutomationError::InvalidTrigger("zz".to_string())));
}

#[test]
fn test_file_watch_deleted_and_prefix_rules() {
    let mut manager = TriggerManager::new();
    manager
        .register(Trigger::new(
            "f",
            "删除",
            TriggerType::FileWatch { path: "/x".to_string(), event: FileWatchEvent::Deleted },
            "wf-del",
        ))
        .unwrap();
    assert!(manager.check_triggers(0, &["file:deleted".to_string()]).is_empty());
    assert!(manager.check_triggers(0, &["xfile:deleted:/x".to_string()]).is_empty());
    assert_eq!(manager.check_triggers(0, &["file:deleted:".to_string()]), vec!["wf-del".to_string()]);
}
